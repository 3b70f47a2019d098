//! The fields that an OpenAPI v3 document describes.

use vstd::prelude::*;

use crate::discovery::ResolvedView;
use crate::json::JsonView;
use crate::schema::error::SchemaErrorView;
use crate::schema::field::{FieldTypeView, FieldView, ResourceSchemaView};
use crate::schema::openapi::{
    named_schema, read_document, FormatView, KindTree, KnownFormat, Named, RefTree, SchemaTree,
    TypeTree,
};
use crate::schema::v3::{
    choices_of, collected, field_at, format_of, inner, joint, opened_field, parts_at, properties_at,
    resource_at, target, text_choices, top, type_at, v3_schema, variant_fields, variants_at, IdView,
    PlaceView,
};
use crate::schema::lookup::definition_key;
use crate::text::{after_prefix, decimal};
use crate::value::canonical;
use super::positions::{ascending, lemma_ascending_push};

verus! {

/// Of a name that stands more than once the first schema counts, and a name that does not stand has
/// none.
pub proof fn lemma_first_of_a_name(schemas: Seq<Named>, name: Seq<char>)
    ensures
        forall|i: int|
            0 <= i < schemas.len() && (#[trigger] schemas[i]).0 == name && (forall|j: int|
                0 <= j < i ==> (#[trigger] schemas[j]).0 != name) ==> named_schema(schemas, name)
                == Some(schemas[i].1),
        (forall|i: int| 0 <= i < schemas.len() ==> (#[trigger] schemas[i]).0 != name)
            ==> named_schema(schemas, name) is None,
    decreases schemas.len(),
{
    if schemas.len() > 0 {
        let rest = schemas.drop_first();
        lemma_first_of_a_name(rest, name);
        assert forall|i: int|
            0 <= i < schemas.len() && (#[trigger] schemas[i]).0 == name && (forall|j: int|
                0 <= j < i ==> (#[trigger] schemas[j]).0 != name) implies named_schema(
            schemas,
            name,
        ) == Some(schemas[i].1) by {
            if i > 0 {
                assert(schemas[0].0 != name);
                assert(rest[i - 1] == schemas[i]);
                assert forall|j: int| 0 <= j < i - 1 implies (#[trigger] rest[j]).0 != name by {
                    assert(rest[j] == schemas[j + 1]);
                }
            }
        }
        if forall|i: int| 0 <= i < schemas.len() ==> (#[trigger] schemas[i]).0 != name {
            assert(schemas[0].0 != name);
            assert forall|i: int| 0 <= i < rest.len() implies (#[trigger] rest[i]).0 != name by {
                assert(rest[i] == schemas[i + 1]);
            }
        }
    }
}

/// A schema that is not being expanded describes a field with its description and its default,
/// whatever else it says. Whether the field is required is not for the schema to say.
pub proof fn lemma_field_keeps_description_and_default(
    schemas: Seq<Named>,
    open: Seq<IdView>,
    name: Seq<char>,
    s: SchemaTree,
    own: IdView,
)
    requires
        !open.contains(own),
    ensures
        match field_at(schemas, open, name, RefTree::Item(Box::new(s)), own) {
            Some(field) => {
                &&& field.name == name
                &&& field.description == s.description
                &&& field.default == s.default
                &&& !field.required
            },
            None => false,
        },
{
    let field = opened_field(schemas, open.push(own), name, own, s);
    assert(field.default == s.default);
}

/// A reference to a schema that has a name stands for that schema: the field is the one that the
/// schema describes where it stands.
pub proof fn lemma_reference_stands_for_schema(
    schemas: Seq<Named>,
    open: Seq<IdView>,
    name: Seq<char>,
    key: Seq<char>,
    s: SchemaTree,
    own: IdView,
)
    requires
        named_schema(schemas, key) == Some(RefTree::Item(Box::new(s))),
    ensures
        field_at(schemas, open, name, RefTree::Reference("#/components/schemas/"@ + key), own)
            == field_at(schemas, open, name, RefTree::Item(Box::new(s)), top(key)),
{
    lemma_after_prefix("#/components/schemas/"@, key);
}

/// The field that a reference to a named schema describes has the description and the default of
/// that schema, unless the schema is being expanded.
pub proof fn lemma_reference_keeps_description_and_default(
    schemas: Seq<Named>,
    open: Seq<IdView>,
    name: Seq<char>,
    key: Seq<char>,
    s: SchemaTree,
    own: IdView,
)
    requires
        named_schema(schemas, key) == Some(RefTree::Item(Box::new(s))),
        !open.contains(top(key)),
    ensures
        match field_at(
            schemas,
            open,
            name,
            RefTree::Reference("#/components/schemas/"@ + key),
            own,
        ) {
            Some(field) => {
                &&& field.name == name
                &&& field.description == s.description
                &&& field.default == s.default
                &&& !field.required
            },
            None => false,
        },
{
    lemma_reference_stands_for_schema(schemas, open, name, key, s, own);
    lemma_field_keeps_description_and_default(schemas, open, name, s, top(key));
}

/// What follows a prefix is what was put behind it.
pub proof fn lemma_after_prefix(prefix: Seq<char>, rest: Seq<char>)
    ensures
        after_prefix(prefix + rest, prefix) == Some(rest),
{
    let text = prefix + rest;
    assert(prefix =~= text.take(prefix.len() as int));
    assert(text.subrange(prefix.len() as int, text.len() as int) =~= rest);
}

/// Of a schema that is being expanded nothing is repeated: the field has its name and can be
/// anything.
pub proof fn lemma_cycle_ends(
    schemas: Seq<Named>,
    open: Seq<IdView>,
    name: Seq<char>,
    s: SchemaTree,
    own: IdView,
)
    requires
        open.contains(own),
    ensures
        match field_at(schemas, open, name, RefTree::Item(Box::new(s)), own) {
            Some(field) => {
                &&& field.name == name
                &&& field.field_type == FieldTypeView::Any
                &&& field.description is None
                &&& field.default is None
                &&& field.enum_values is None
                &&& field.variants is None
                &&& field.format is None
                &&& !field.required
            },
            None => false,
        },
{
}

/// There is no field if and only if a reference leads nowhere: to no schema of the document, to a
/// name that no schema has, or to another reference.
pub proof fn lemma_no_field_without_schema(
    schemas: Seq<Named>,
    open: Seq<IdView>,
    name: Seq<char>,
    r: RefTree,
    own: IdView,
)
    ensures
        field_at(schemas, open, name, r, own) is None <==> match r {
            RefTree::Item(_) => false,
            RefTree::Reference(text) => forall|key: Seq<char>|
                text == #[trigger] ("#/components/schemas/"@ + key) ==> !(named_schema(
                    schemas,
                    key,
                ) matches Some(RefTree::Item(_))),
        },
{
    let prefix = "#/components/schemas/"@;
    match r {
        RefTree::Reference(text) => {
            match after_prefix(text, prefix) {
                Some(key) => {
                    assert(text =~= prefix + key);
                    assert forall|other: Seq<char>| text == #[trigger] (prefix + other) implies other
                        == key by {
                        lemma_after_prefix(prefix, other);
                    }
                },
                None => {
                    assert forall|other: Seq<char>| text == #[trigger] (prefix + other) implies false by {
                        lemma_after_prefix(prefix, other);
                    }
                },
            }
        },
        _ => {},
    }
}

/// Schemas that stand at different places are told apart, and none at a place inside of another is
/// taken for one that has a name.
pub proof fn lemma_places_differ(a: IdView, p: PlaceView, b: IdView, q: PlaceView, name: Seq<char>)
    ensures
        inner(a, p) == inner(b, q) <==> a == b && p == q,
        inner(a, p) != top(name),
        inner(a, p) != a,
        top(a.name) == top(b.name) <==> a.name == b.name,
{
    let (x, y) = (inner(a, p), inner(b, q));
    assert(x.path.drop_last() =~= a.path);
    assert(y.path.drop_last() =~= b.path);
    assert(x.path.last() == p && y.path.last() == q);
    if x == y {
        assert(a.path == b.path);
        assert(a =~= b);
    }
    assert(x.path.len() == a.path.len() + 1);
}

/// The type that a schema of one kind names is the type of the field.
pub proof fn lemma_scalar_types(
    schemas: Seq<Named>,
    open: Seq<IdView>,
    name: Seq<char>,
    s: SchemaTree,
    own: IdView,
)
    requires
        !open.contains(own),
    ensures
        match field_at(schemas, open, name, RefTree::Item(Box::new(s)), own) {
            Some(field) => match s.kind {
                KindTree::Typed(TypeTree::String { .. }) => field.field_type
                    == FieldTypeView::String,
                KindTree::Typed(TypeTree::Integer { .. }) => field.field_type
                    == FieldTypeView::Integer,
                KindTree::Typed(TypeTree::Number { .. }) => field.field_type
                    == FieldTypeView::Number,
                KindTree::Typed(TypeTree::Boolean) => field.field_type == FieldTypeView::Boolean,
                KindTree::Typed(TypeTree::Array { .. }) => field.field_type is Array,
                KindTree::Typed(TypeTree::Object { properties, .. }) => if properties.len() == 0 {
                    field.field_type is Mapping
                } else {
                    field.field_type is Object
                },
                KindTree::AllOf(_) => field.field_type is Object || field.field_type is Any,
                KindTree::OneOf(_) | KindTree::AnyOf(_) | KindTree::Not => field.field_type
                    == FieldTypeView::Any,
                KindTree::Any(any) => any.all_of.len() == 0 && any.properties.len() == 0 ==> {
                    &&& any.typ == Some("string"@) ==> field.field_type == FieldTypeView::String
                    &&& any.typ == Some("integer"@) ==> field.field_type == FieldTypeView::Integer
                    &&& any.typ == Some("number"@) ==> field.field_type == FieldTypeView::Number
                    &&& any.typ == Some("boolean"@) ==> field.field_type == FieldTypeView::Boolean
                    &&& any.typ == Some("array"@) ==> field.field_type is Array
                    &&& any.typ is None ==> field.field_type == FieldTypeView::Any
                    &&& any.typ == Some("object"@) ==> field.field_type == FieldTypeView::Any
                },
            },
            None => false,
        },
{
    let field = opened_field(schemas, open.push(own), name, own, s);
    assert(field.field_type == type_at(schemas, open.push(own), own, s.kind));
    lemma_type_names_differ();
}

/// The names of types differ from each other, and none is empty.
pub proof fn lemma_type_names_differ()
    ensures
        "string"@ != "integer"@ && "string"@ != "number"@ && "string"@ != "boolean"@,
        "string"@ != "array"@ && "string"@ != "object"@ && "string"@ != ""@,
        "integer"@ != "number"@ && "integer"@ != "boolean"@ && "integer"@ != "array"@,
        "integer"@ != "object"@ && "integer"@ != ""@,
        "number"@ != "boolean"@ && "number"@ != "array"@ && "number"@ != "object"@,
        "number"@ != ""@,
        "boolean"@ != "array"@ && "boolean"@ != "object"@ && "boolean"@ != ""@,
        "array"@ != "object"@ && "array"@ != ""@ && "object"@ != ""@,
{
    reveal_strlit("");
    reveal_strlit("string");
    reveal_strlit("integer");
    reveal_strlit("number");
    reveal_strlit("boolean");
    reveal_strlit("array");
    reveal_strlit("object");
    assert(""@.len() == 0 && "string"@.len() == 6 && "object"@.len() == 6);
    assert("integer"@.len() == 7 && "number"@.len() == 6 && "boolean"@.len() == 7);
    assert("array"@.len() == 5);
    assert("string"@[0] == 's' && "number"@[0] == 'n' && "object"@[0] == 'o');
    assert("boolean"@[0] == 'b' && "integer"@[0] == 'i' && "array"@[0] == 'a');
}

/// The choices of a list of texts and of nothings are those of its two parts, one after the other; a
/// text is a choice, and nothing is none.
pub proof fn lemma_text_choices(a: Seq<Option<Seq<char>>>, b: Seq<Option<Seq<char>>>, t: Seq<char>)
    ensures
        text_choices(a + b) == text_choices(a) + text_choices(b),
        text_choices(seq![Some(t)]) == seq![JsonView::String(t)],
        text_choices(seq![None]) == Seq::<JsonView>::empty(),
    decreases b.len(),
{
    assert(text_choices(seq![Some(t)].drop_last()) =~= Seq::<JsonView>::empty());
    assert(text_choices(seq![None::<Seq<char>>].drop_last()) =~= Seq::<JsonView>::empty());
    assert(text_choices(seq![Some(t)]) =~= seq![JsonView::String(t)]);
    if b.len() == 0 {
        assert(a + b =~= a);
        assert(text_choices(a) + text_choices(b) =~= text_choices(a));
    } else {
        assert((a + b).drop_last() =~= a + b.drop_last());
        assert((a + b).last() == b.last());
        lemma_text_choices(a, b.drop_last(), t);
        assert(text_choices(a + b) =~= text_choices(a) + text_choices(b));
    }
}

/// The field has the choices that the schema lists, if it lists any: those of a string are its
/// texts, and one of no particular form lists any values.
pub proof fn lemma_choices_kept(
    schemas: Seq<Named>,
    open: Seq<IdView>,
    name: Seq<char>,
    s: SchemaTree,
    own: IdView,
)
    requires
        !open.contains(own),
    ensures
        match field_at(schemas, open, name, RefTree::Item(Box::new(s)), own) {
            Some(field) => match s.kind {
                KindTree::Typed(TypeTree::String { choices, .. }) => if text_choices(choices).len()
                    == 0 {
                    field.enum_values is None
                } else {
                    field.enum_values == Some(text_choices(choices))
                },
                KindTree::Any(any) => if any.choices.len() == 0 {
                    field.enum_values is None
                } else {
                    field.enum_values == Some(any.choices)
                },
                _ => field.enum_values is None,
            },
            None => false,
        },
{
    let field = opened_field(schemas, open.push(own), name, own, s);
    assert(field.enum_values == choices_of(s.kind));
}

/// The format of a field is the one that the schema gives, as it is written in the document.
pub proof fn lemma_format_kept(
    schemas: Seq<Named>,
    open: Seq<IdView>,
    name: Seq<char>,
    s: SchemaTree,
    own: IdView,
)
    requires
        !open.contains(own),
    ensures
        match field_at(schemas, open, name, RefTree::Item(Box::new(s)), own) {
            Some(field) => match s.kind {
                KindTree::Typed(TypeTree::String { format, .. })
                | KindTree::Typed(TypeTree::Integer { format })
                | KindTree::Typed(TypeTree::Number { format }) => match format {
                    FormatView::Unknown(text) => field.format == Some(text),
                    FormatView::Absent => field.format is None,
                    FormatView::Known(KnownFormat::Date) => field.format == Some("date"@),
                    FormatView::Known(KnownFormat::DateTime) => field.format == Some("date-time"@),
                    FormatView::Known(KnownFormat::Password) => field.format == Some("password"@),
                    FormatView::Known(KnownFormat::Byte) => field.format == Some("byte"@),
                    FormatView::Known(KnownFormat::Binary) => field.format == Some("binary"@),
                    FormatView::Known(KnownFormat::Float) => field.format == Some("float"@),
                    FormatView::Known(KnownFormat::Double) => field.format == Some("double"@),
                    FormatView::Known(KnownFormat::Int32) => field.format == Some("int32"@),
                    FormatView::Known(KnownFormat::Int64) => field.format == Some("int64"@),
                },
                KindTree::Any(any) => field.format == any.format,
                _ => field.format is None,
            },
            None => false,
        },
{
    let field = opened_field(schemas, open.push(own), name, own, s);
    assert(field.format == format_of(s.kind));
}

/// Whether the items of a list have this schema.
pub open spec fn has_items(s: SchemaTree, items: Option<RefTree>) -> bool {
    match s.kind {
        KindTree::Typed(TypeTree::Array { items: own }) => own == items,
        KindTree::Any(any) => any.all_of.len() == 0 && any.properties.len() == 0 && any.typ == Some(
            "array"@,
        ) && any.items == items,
        _ => false,
    }
}

/// The items of a list are those that the schema of its items describes, references included. Where
/// there is no such schema, nothing is known of them.
pub proof fn lemma_list_has_items(
    schemas: Seq<Named>,
    open: Seq<IdView>,
    name: Seq<char>,
    s: SchemaTree,
    own: IdView,
    items: Option<RefTree>,
)
    requires
        !open.contains(own),
        has_items(s, items),
    ensures
        match field_at(schemas, open, name, RefTree::Item(Box::new(s)), own) {
            Some(field) => match field.field_type {
                FieldTypeView::Array(item) => {
                    &&& item.name == "items"@
                    &&& match items {
                        Some(r) => match field_at(
                            schemas,
                            open.push(own),
                            "items"@,
                            r,
                            inner(own, PlaceView::Items),
                        ) {
                            Some(described) => *item == described,
                            None => item.field_type == FieldTypeView::Any && item.default is None,
                        },
                        None => item.field_type == FieldTypeView::Any && item.default is None,
                    }
                },
                _ => false,
            },
            None => false,
        },
{
    let field = opened_field(schemas, open.push(own), name, own, s);
    assert(field.field_type == type_at(schemas, open.push(own), own, s.kind));
    lemma_type_names_differ();
    match items {
        Some(r) => {
            lemma_name_kept(
                schemas,
                open.push(own),
                "items"@,
                r,
                inner(own, PlaceView::Items),
            );
        },
        None => {},
    }
    assert(type_at(schemas, open.push(own), own, s.kind) == crate::schema::v3::array_at(
        schemas,
        open.push(own),
        own,
        items,
    ));
}

/// A field has the name that it was asked for under.
pub proof fn lemma_name_kept(
    schemas: Seq<Named>,
    open: Seq<IdView>,
    name: Seq<char>,
    r: RefTree,
    own: IdView,
)
    ensures
        field_at(schemas, open, name, r, own) matches Some(field) ==> field.name == name
            && !field.required,
{
    match target(schemas, r, own) {
        Some((id, s)) => {
            assert(opened_field(schemas, open.push(id), name, id, s).name == name);
        },
        None => {},
    }
}

/// An object without properties holds values of the schema that its further properties have, if they
/// have one.
pub proof fn lemma_mapping_has_values(
    schemas: Seq<Named>,
    open: Seq<IdView>,
    name: Seq<char>,
    s: SchemaTree,
    own: IdView,
)
    requires
        !open.contains(own),
        s.kind matches KindTree::Typed(TypeTree::Object { properties, .. }) && properties.len() == 0,
    ensures
        match field_at(schemas, open, name, RefTree::Item(Box::new(s)), own) {
            Some(field) => match s.kind->Typed_0->values {
                Some(r) => match field_at(
                    schemas,
                    open.push(own),
                    "value"@,
                    r,
                    inner(own, PlaceView::Values),
                ) {
                    Some(value) => field.field_type == FieldTypeView::Mapping(
                        Some(Box::new(value)),
                    ),
                    None => field.field_type == FieldTypeView::Mapping(None),
                },
                None => field.field_type == FieldTypeView::Mapping(None),
            },
            None => false,
        },
{
    let field = opened_field(schemas, open.push(own), name, own, s);
    assert(field.field_type == type_at(schemas, open.push(own), own, s.kind));
}

/// The field that a property describes in an object, if it describes one: the one that its schema
/// describes, required if the object says so.
pub open spec fn property_field(
    schemas: Seq<Named>,
    open: Seq<IdView>,
    id: IdView,
    properties: Seq<Named>,
    required: Seq<Seq<char>>,
    i: int,
) -> Option<FieldView> {
    match field_at(
        schemas,
        open,
        properties[i].0,
        properties[i].1,
        inner(id, PlaceView::Property(i)),
    ) {
        Some(field) => Some(
            FieldView { required: required.contains(properties[i].0), ..field },
        ),
        None => None,
    }
}

/// The fields of an object are those that its properties describe, in their order, and there is none
/// for a property whose reference leads nowhere: returns the positions of the properties.
pub proof fn lemma_properties(
    schemas: Seq<Named>,
    open: Seq<IdView>,
    id: IdView,
    properties: Seq<Named>,
    required: Seq<Seq<char>>,
) -> (kept: Seq<int>)
    ensures
        ({
            let fields = properties_at(schemas, open, id, properties, required);
            &&& ascending(kept, properties.len() as int)
            &&& fields.len() == kept.len()
            &&& forall|k: int|
                #![trigger fields[k]]
                #![trigger kept[k]]
                0 <= k < kept.len() ==> property_field(
                    schemas,
                    open,
                    id,
                    properties,
                    required,
                    kept[k],
                ) == Some(fields[k])
            &&& forall|i: int|
                0 <= i < properties.len() && (#[trigger] property_field(
                    schemas,
                    open,
                    id,
                    properties,
                    required,
                    i,
                )) is Some ==> kept.contains(i)
        }),
    decreases properties.len(),
{
    if properties.len() == 0 {
        Seq::empty()
    } else {
        let n = properties.len() - 1;
        let rest = properties.drop_last();
        let before = lemma_properties(schemas, open, id, rest, required);
        let fields = properties_at(schemas, open, id, properties, required);
        let old = properties_at(schemas, open, id, rest, required);
        lemma_ascending_push(before, n);
        assert forall|i: int| 0 <= i < n implies #[trigger] property_field(
            schemas,
            open,
            id,
            properties,
            required,
            i,
        ) == property_field(schemas, open, id, rest, required, i) by {
            assert(rest[i] == properties[i]);
        }
        let kept = match property_field(schemas, open, id, properties, required, n) {
            Some(_) => before.push(n),
            None => before,
        };
        assert forall|k: int| 0 <= k < kept.len() implies property_field(
            schemas,
            open,
            id,
            properties,
            required,
            #[trigger] kept[k],
        ) == Some(fields[k]) by {
            if k < before.len() {
                assert(kept[k] == before[k]);
                assert(fields[k] == old[k]);
            }
        }
        assert forall|i: int|
            0 <= i < properties.len() && (#[trigger] property_field(
                schemas,
                open,
                id,
                properties,
                required,
                i,
            )) is Some implies kept.contains(i) by {
            if i < n {
                assert(property_field(schemas, open, id, rest, required, i) is Some);
                assert(before.contains(i));
            }
        }
        kept
    }
}

/// Whether a schema is that of an object with these properties, of which some are required.
pub open spec fn has_properties(
    s: SchemaTree,
    properties: Seq<Named>,
    required: Seq<Seq<char>>,
) -> bool {
    &&& properties.len() > 0
    &&& match s.kind {
        KindTree::Typed(TypeTree::Object { properties: own, required: names, .. }) => own
            == properties && names == required,
        KindTree::Any(any) => any.all_of.len() == 0 && any.properties == properties && any.required
            == required,
        _ => false,
    }
}

/// A schema with properties describes an object, each field of which one of the properties describes
/// under its name. It is required exactly if the schema says so. Each property that leads somewhere
/// is there, and they keep their order.
pub proof fn lemma_object_has_properties(
    schemas: Seq<Named>,
    open: Seq<IdView>,
    name: Seq<char>,
    s: SchemaTree,
    own: IdView,
    properties: Seq<Named>,
    required: Seq<Seq<char>>,
) -> (kept: Seq<int>)
    requires
        !open.contains(own),
        has_properties(s, properties, required),
    ensures
        ascending(kept, properties.len() as int),
        forall|i: int|
            0 <= i < properties.len() && (#[trigger] property_field(
                schemas,
                open.push(own),
                own,
                properties,
                required,
                i,
            )) is Some ==> kept.contains(i),
        match field_at(schemas, open, name, RefTree::Item(Box::new(s)), own) {
            Some(field) => match field.field_type {
                FieldTypeView::Object(fields) => {
                    &&& fields.len() == kept.len()
                    &&& forall|k: int|
                        0 <= k < fields.len() ==> property_field(
                            schemas,
                            open.push(own),
                            own,
                            properties,
                            required,
                            kept[k],
                        ) == Some(#[trigger] fields[k]) && fields[k].name == properties[kept[k]].0
                            && fields[k].required == required.contains(fields[k].name)
                },
                _ => false,
            },
            None => false,
        },
{
    let field = opened_field(schemas, open.push(own), name, own, s);
    assert(field.field_type == type_at(schemas, open.push(own), own, s.kind));
    let fields = properties_at(schemas, open.push(own), own, properties, required);
    assert(field.field_type == FieldTypeView::Object(fields));
    let kept = lemma_properties(schemas, open.push(own), own, properties, required);
    assert forall|k: int| 0 <= k < fields.len() implies property_field(
        schemas,
        open.push(own),
        own,
        properties,
        required,
        kept[k],
    ) == Some(#[trigger] fields[k]) && fields[k].name == properties[kept[k]].0 && fields[k].required
        == required.contains(fields[k].name) by {
        let i = kept[k];
        lemma_name_kept(
            schemas,
            open.push(own),
            properties[i].0,
            properties[i].1,
            inner(own, PlaceView::Property(i)),
        );
    }
    kept
}

/// The fields that a schema adds to what it is a part of, and the names that it requires: those of
/// its properties, or those of its parts together.
pub proof fn lemma_collected_from_properties(
    schemas: Seq<Named>,
    open: Seq<IdView>,
    id: IdView,
    kind: KindTree,
)
    ensures
        match kind {
            KindTree::Typed(TypeTree::Object { properties, required, .. }) => collected(
                schemas,
                open,
                id,
                kind,
            ).fields == properties_at(schemas, open, id, properties, required) && collected(
                schemas,
                open,
                id,
                kind,
            ).required == required,
            KindTree::AllOf(parts) => collected(schemas, open, id, kind) == joint(
                schemas,
                open,
                id,
                parts,
            ),
            KindTree::Any(any) => if any.properties.len() > 0 {
                collected(schemas, open, id, kind).fields == properties_at(
                    schemas,
                    open,
                    id,
                    any.properties,
                    any.required,
                ) && collected(schemas, open, id, kind).required == any.required
            } else {
                collected(schemas, open, id, kind).fields.len() == 0 && collected(
                    schemas,
                    open,
                    id,
                    kind,
                ).required.len() == 0
            },
            _ => collected(schemas, open, id, kind).fields.len() == 0 && collected(
                schemas,
                open,
                id,
                kind,
            ).required.len() == 0,
        },
{
}

/// The fields of no parts are none. One more part adds its fields behind those of the others, and
/// makes every field required that it requires itself, while those that were required stay so; of
/// a part that is being expanded, or to which no schema belongs, nothing is added.
pub proof fn lemma_part_adds_fields(
    schemas: Seq<Named>,
    open: Seq<IdView>,
    id: IdView,
    parts: Seq<RefTree>,
    part: RefTree,
)
    ensures
        joint(schemas, open, id, Seq::empty()).fields.len() == 0,
        ({
            let before = joint(schemas, open, id, parts);
            let now = joint(schemas, open, id, parts.push(part));
            match target(schemas, part, inner(id, PlaceView::Part(parts.len() as int))) {
                Some((place, s)) => if open.contains(place) {
                    now == before
                } else {
                    let added = collected(schemas, open.push(place), place, s.kind);
                    let n = before.fields.len() as int;
                    &&& now.fields.len() == n + added.fields.len()
                    &&& now.required == before.required + added.required
                    &&& forall|k: int|
                        0 <= k < n ==> #[trigger] now.fields[k] == (FieldView {
                            required: before.fields[k].required || added.required.contains(
                                before.fields[k].name,
                            ),
                            ..before.fields[k]
                        })
                    &&& forall|k: int|
                        n <= k < now.fields.len() ==> #[trigger] now.fields[k] == (FieldView {
                            required: added.fields[k - n].required || added.required.contains(
                                added.fields[k - n].name,
                            ) || before.required.contains(added.fields[k - n].name),
                            ..added.fields[k - n]
                        })
                },
                None => now == before,
            }
        }),
{
    let all = parts.push(part);
    assert(all.drop_last() =~= parts);
    assert(all[all.len() - 1] == part);
    let before = parts_at(schemas, open, id, parts);
    let now = parts_at(schemas, open, id, all);
    assert(joint(schemas, open, id, Seq::empty()).fields =~= Seq::empty()) by {
        assert(parts_at(schemas, open, id, Seq::empty()).fields =~= Seq::empty());
    }
    match target(schemas, part, inner(id, PlaceView::Part(parts.len() as int))) {
        Some((place, s)) => {
            if !open.contains(place) {
                let added = collected(schemas, open.push(place), place, s.kind);
                assert(now.fields == before.fields + added.fields);
                assert(now.required == before.required + added.required);
                assert forall|name: Seq<char>| now.required.contains(name) == (
                before.required.contains(name) || added.required.contains(name)) by {
                    lemma_contains_concat(before.required, added.required, name);
                }
            }
        },
        None => {},
    }
}

proof fn lemma_contains_concat(a: Seq<Seq<char>>, b: Seq<Seq<char>>, x: Seq<char>)
    ensures
        (a + b).contains(x) == (a.contains(x) || b.contains(x)),
{
    if a.contains(x) {
        let i = choose|i: int| 0 <= i < a.len() && a[i] == x;
        assert((a + b)[i] == x);
    }
    if b.contains(x) {
        let i = choose|i: int| 0 <= i < b.len() && b[i] == x;
        assert((a + b)[a.len() + i] == x);
    }
    if (a + b).contains(x) {
        let i = choose|i: int| 0 <= i < (a + b).len() && (a + b)[i] == x;
        if i < a.len() {
            assert(a[i] == x);
        } else {
            assert(b[i - a.len()] == x);
        }
    }
}

/// Whether all these parts hold for the values of a schema.
pub open spec fn has_parts(s: SchemaTree, parts: Seq<RefTree>) -> bool {
    match s.kind {
        KindTree::AllOf(own) => own == parts,
        KindTree::Any(any) => any.all_of.len() > 0 && any.all_of == parts,
        _ => false,
    }
}

/// A schema whose parts all hold describes an object with the fields of the parts together, or
/// anything if they have none.
pub proof fn lemma_parts_make_object(
    schemas: Seq<Named>,
    open: Seq<IdView>,
    name: Seq<char>,
    s: SchemaTree,
    own: IdView,
    parts: Seq<RefTree>,
)
    requires
        !open.contains(own),
        has_parts(s, parts),
    ensures
        match field_at(schemas, open, name, RefTree::Item(Box::new(s)), own) {
            Some(field) => match field.field_type {
                FieldTypeView::Object(fields) => fields.len() > 0 && fields == joint(
                    schemas,
                    open.push(own),
                    own,
                    parts,
                ).fields,
                FieldTypeView::Any => joint(schemas, open.push(own), own, parts).fields.len() == 0,
                _ => false,
            },
            None => false,
        },
{
    let field = opened_field(schemas, open.push(own), name, own, s);
    assert(field.field_type == type_at(schemas, open.push(own), own, s.kind));
}

/// A property of a part is a field of the whole, under its name, and it is required if the part
/// requires it.
pub proof fn lemma_part_property_is_field(
    schemas: Seq<Named>,
    open: Seq<IdView>,
    id: IdView,
    parts: Seq<RefTree>,
    p: int,
    i: int,
)
    requires
        0 <= p < parts.len(),
        ({
            match target(schemas, parts[p], inner(id, PlaceView::Part(p))) {
                Some((place, s)) => {
                    &&& !open.contains(place)
                    &&& s.kind matches KindTree::Typed(
                        TypeTree::Object { properties, required, .. },
                    ) && 0 <= i < properties.len() && property_field(
                        schemas,
                        open.push(place),
                        place,
                        properties,
                        required,
                        i,
                    ) is Some
                },
                None => false,
            }
        }),
    ensures
        ({
            let (place, s) = target(schemas, parts[p], inner(id, PlaceView::Part(p)))->0;
            let properties = s.kind->Typed_0->properties;
            let required = s.kind->Typed_0->required;
            let field = property_field(schemas, open.push(place), place, properties, required, i)->0;
            exists|k: int|
                #![trigger joint(schemas, open, id, parts).fields[k]]
                0 <= k < joint(schemas, open, id, parts).fields.len() && ({
                    let found = joint(schemas, open, id, parts).fields[k];
                    &&& found == FieldView { required: found.required, ..field }
                    &&& field.required ==> found.required
                })
        }),
    decreases parts.len(),
{
    let rest = parts.drop_last();
    let last = parts.last();
    let now = joint(schemas, open, id, parts);
    let before = joint(schemas, open, id, rest);
    assert(rest.push(last) =~= parts);
    lemma_part_adds_fields(schemas, open, id, rest, last);
    if p < rest.len() {
        assert(rest[p] == parts[p]);
        lemma_part_property_is_field(schemas, open, id, rest, p, i);
        let (place, s) = target(schemas, parts[p], inner(id, PlaceView::Part(p)))->0;
        let properties = s.kind->Typed_0->properties;
        let required = s.kind->Typed_0->required;
        let field = property_field(schemas, open.push(place), place, properties, required, i)->0;
        let k = choose|k: int|
            #![trigger before.fields[k]]
            0 <= k < before.fields.len() && before.fields[k] == (FieldView {
                required: before.fields[k].required,
                ..field
            }) && (field.required ==> before.fields[k].required);
        assert(now.fields[k] == FieldView { required: now.fields[k].required, ..field });
    } else {
        let (place, s) = target(schemas, parts[p], inner(id, PlaceView::Part(p)))->0;
        let properties = s.kind->Typed_0->properties;
        let required = s.kind->Typed_0->required;
        let added = collected(schemas, open.push(place), place, s.kind);
        let kept = lemma_properties(schemas, open.push(place), place, properties, required);
        assert(kept.contains(i));
        let k = choose|k: int| 0 <= k < kept.len() && kept[k] == i;
        lemma_collected_from_properties(schemas, open.push(place), place, s.kind);
        let at = before.fields.len() + k;
        assert(added.fields[k] == property_field(
            schemas,
            open.push(place),
            place,
            properties,
            required,
            i,
        )->0);
        assert(now.fields[at] == FieldView { required: now.fields[at].required, ..added.fields[k] });
    }
}

/// Of a schema for which some of a list of schemas hold, or one of them, the variants are those that
/// the schemas describe, in their order, each called by its position. No other schema has variants.
pub proof fn lemma_variants_kept(
    schemas: Seq<Named>,
    open: Seq<IdView>,
    name: Seq<char>,
    s: SchemaTree,
    own: IdView,
    list: Seq<RefTree>,
) -> (kept: Seq<int>)
    requires
        !open.contains(own),
        s.kind == KindTree::OneOf(list) || s.kind == KindTree::AnyOf(list),
    ensures
        ascending(kept, list.len() as int),
        forall|i: int|
            0 <= i < list.len() && (#[trigger] variant_field(schemas, open.push(own), own, list, i))
                is Some ==> kept.contains(i),
        match field_at(schemas, open, name, RefTree::Item(Box::new(s)), own) {
            Some(field) => match field.variants {
                Some(variants) => {
                    &&& variants.len() == kept.len()
                    &&& variants.len() > 0
                    &&& forall|k: int|
                        0 <= k < variants.len() ==> variant_field(
                            schemas,
                            open.push(own),
                            own,
                            list,
                            kept[k],
                        ) == Some(#[trigger] variants[k])
                },
                None => kept.len() == 0,
            },
            None => false,
        },
{
    let field = opened_field(schemas, open.push(own), name, own, s);
    assert(field.variants == variants_at(schemas, open.push(own), own, s.kind));
    lemma_variant_positions(schemas, open.push(own), own, list)
}

/// The field that the schema at a position of a list of variants describes, if it describes one.
pub open spec fn variant_field(
    schemas: Seq<Named>,
    open: Seq<IdView>,
    id: IdView,
    list: Seq<RefTree>,
    i: int,
) -> Option<FieldView> {
    field_at(
        schemas,
        open,
        "variant_"@ + decimal(i as nat),
        list[i],
        inner(id, PlaceView::Variant(i)),
    )
}

proof fn lemma_variant_positions(
    schemas: Seq<Named>,
    open: Seq<IdView>,
    id: IdView,
    list: Seq<RefTree>,
) -> (kept: Seq<int>)
    ensures
        ({
            let fields = variant_fields(schemas, open, id, list);
            &&& ascending(kept, list.len() as int)
            &&& fields.len() == kept.len()
            &&& forall|k: int|
                #![trigger fields[k]]
                #![trigger kept[k]]
                0 <= k < kept.len() ==> variant_field(schemas, open, id, list, kept[k]) == Some(
                    fields[k],
                )
            &&& forall|i: int|
                0 <= i < list.len() && (#[trigger] variant_field(schemas, open, id, list, i)) is Some
                    ==> kept.contains(i)
        }),
    decreases list.len(),
{
    if list.len() == 0 {
        Seq::empty()
    } else {
        let n = list.len() - 1;
        let rest = list.drop_last();
        let before = lemma_variant_positions(schemas, open, id, rest);
        let fields = variant_fields(schemas, open, id, list);
        let old = variant_fields(schemas, open, id, rest);
        lemma_ascending_push(before, n);
        assert forall|i: int| 0 <= i < n implies #[trigger] variant_field(schemas, open, id, list, i)
            == variant_field(schemas, open, id, rest, i) by {
            assert(rest[i] == list[i]);
        }
        let kept = match variant_field(schemas, open, id, list, n) {
            Some(_) => before.push(n),
            None => before,
        };
        assert forall|k: int| 0 <= k < kept.len() implies variant_field(
            schemas,
            open,
            id,
            list,
            #[trigger] kept[k],
        ) == Some(fields[k]) by {
            if k < before.len() {
                assert(kept[k] == before[k]);
                assert(fields[k] == old[k]);
            }
        }
        assert forall|i: int|
            0 <= i < list.len() && (#[trigger] variant_field(schemas, open, id, list, i))
                is Some implies kept.contains(i) by {
            if i < n {
                assert(variant_field(schemas, open, id, rest, i) is Some);
                assert(before.contains(i));
            }
        }
        kept
    }
}

/// A schema that is no list of variants has none.
pub proof fn lemma_no_variants(
    schemas: Seq<Named>,
    open: Seq<IdView>,
    name: Seq<char>,
    s: SchemaTree,
    own: IdView,
)
    requires
        !open.contains(own),
        !(s.kind is OneOf),
        !(s.kind is AnyOf),
    ensures
        field_at(schemas, open, name, RefTree::Item(Box::new(s)), own) matches Some(field)
            && field.variants is None,
{
    let field = opened_field(schemas, open.push(own), name, own, s);
    assert(field.variants == variants_at(schemas, open.push(own), own, s.kind));
}

/// The fields of a resource are those that the properties of its schema describe, nothing being
/// expanded yet, and its description is that of the schema.
pub proof fn lemma_resource_has_properties(
    schemas: Seq<Named>,
    id: IdView,
    s: SchemaTree,
    properties: Seq<Named>,
    required: Seq<Seq<char>>,
) -> (kept: Seq<int>)
    requires
        has_properties(s, properties, required),
    ensures
        resource_at(schemas, id, s).description == s.description,
        ascending(kept, properties.len() as int),
        forall|i: int|
            0 <= i < properties.len() && (#[trigger] property_field(
                schemas,
                Seq::empty(),
                id,
                properties,
                required,
                i,
            )) is Some ==> kept.contains(i),
        ({
            let fields = resource_at(schemas, id, s).fields;
            &&& fields.len() == kept.len()
            &&& forall|k: int|
                0 <= k < fields.len() ==> property_field(
                    schemas,
                    Seq::empty(),
                    id,
                    properties,
                    required,
                    kept[k],
                ) == Some(#[trigger] fields[k])
        }),
{
    lemma_collected_from_properties(schemas, Seq::empty(), id, s.kind);
    lemma_properties(schemas, Seq::empty(), id, properties, required)
}

/// The fields of a resource whose schema is made of parts that all hold are those of the parts
/// together. A schema with neither parts nor properties has no fields. The description is always
/// that of the schema.
pub proof fn lemma_resource_has_parts(
    schemas: Seq<Named>,
    id: IdView,
    s: SchemaTree,
    parts: Seq<RefTree>,
)
    ensures
        resource_at(schemas, id, s).description == s.description,
        s.kind == KindTree::AllOf(parts) ==> resource_at(schemas, id, s).fields == joint(
            schemas,
            Seq::empty(),
            id,
            parts,
        ).fields,
        match s.kind {
            KindTree::Typed(TypeTree::Object { properties, .. }) => properties.len() == 0
                ==> resource_at(schemas, id, s).fields.len() == 0,
            KindTree::Any(any) => any.properties.len() == 0 ==> resource_at(
                schemas,
                id,
                s,
            ).fields.len() == 0,
            KindTree::AllOf(_) => true,
            _ => resource_at(schemas, id, s).fields.len() == 0,
        },
{
    lemma_collected_from_properties(schemas, Seq::empty(), id, s.kind);
}

/// The schema of a resource is that of the definition that is its own, whether it stands under the
/// key itself or the key refers to it. Where no definition is its own, where it refers to nothing,
/// where the document has no components or the spec is no document, the error says so.
pub proof fn lemma_own_definition_described(
    spec_json: JsonView,
    j: JsonView,
    schemas: Seq<Named>,
    r: ResolvedView,
    text: Seq<char>,
)
    requires
        canonical(spec_json) == Some(j),
    ensures
        read_document(j) == Err::<Option<Seq<Named>>, Seq<char>>(text) ==> v3_schema(spec_json, r)
            == Err::<ResourceSchemaView, SchemaErrorView>(SchemaErrorView::Unparsed(text)),
        read_document(j) == Ok::<Option<Seq<Named>>, Seq<char>>(None) ==> v3_schema(spec_json, r)
            == Err::<ResourceSchemaView, SchemaErrorView>(SchemaErrorView::NoComponents),
        read_document(j) == Ok::<Option<Seq<Named>>, Seq<char>>(Some(schemas)) ==> match definition_key(
            schemas.map_values(|e: Named| e.0),
            r,
        ) {
            Some(key) => match named_schema(schemas, key) {
                Some(RefTree::Item(s)) => v3_schema(spec_json, r) == Ok::<
                    ResourceSchemaView,
                    SchemaErrorView,
                >(resource_at(schemas, top(key), *s)),
                Some(RefTree::Reference(reference)) => forall|other: Seq<char>|
                    reference == #[trigger] ("#/components/schemas/"@ + other) ==> match named_schema(
                        schemas,
                        other,
                    ) {
                        Some(RefTree::Item(s)) => v3_schema(spec_json, r) == Ok::<
                            ResourceSchemaView,
                            SchemaErrorView,
                        >(resource_at(schemas, top(other), *s)),
                        _ => v3_schema(spec_json, r) == Err::<ResourceSchemaView, SchemaErrorView>(
                            SchemaErrorView::Unresolved(key),
                        ),
                    },
                None => true,
            },
            None => v3_schema(spec_json, r) == Err::<ResourceSchemaView, SchemaErrorView>(
                SchemaErrorView::NoKey { group: r.group, version: r.version, kind: r.kind },
            ),
        },
{
    assert forall|other: Seq<char>| after_prefix(
        #[trigger] ("#/components/schemas/"@ + other),
        "#/components/schemas/"@,
    ) == Some(other) by {
        lemma_after_prefix("#/components/schemas/"@, other);
    }
}

}
