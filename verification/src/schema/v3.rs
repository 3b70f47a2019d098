//! Schemas from an OpenAPI v3 document: typed schemas with references between them.

use vstd::prelude::*;
use vstd::string::*;

use crate::discovery::{ResolvedResource, ResolvedView};
use crate::json::{json_views, lemma_json_views_push, Json, JsonView};
use crate::schema::error::{SchemaError, SchemaErrorView};
use crate::schema::field::{
    any_field, any_field_view, field_views, lemma_field_type_view, lemma_field_view,
    lemma_field_views_push, opt_field_list, opt_json_list, FieldSchema, FieldType, FieldTypeView,
    FieldView, ResourceSchema, ResourceSchemaView,
};
use crate::schema::lookup::{definition_key, find_definition_key, lemma_definition_key, no_key};
use crate::schema::openapi::{
    additional_schema, any_parts, any_view, boxed_parts, boxed_view, choice_views, integer_format,
    kind_parts, kind_view, named_schema, number_format, opt_additional, opt_boxed, properties_of,
    properties_view, read_document, read_openapi, reference_parts, reference_view, reference_views,
    schema_named, schema_names, schema_parts, schema_view, schemas_of, schemas_view, string_format,
    type_parts, AnyTree, FormatParts, FormatView, KindParts, KindTree, KnownFormat, Named,
    Properties, RefParts, RefTree, SchemaTree, Schemas, TypeParts, TypeTree,
};
use crate::text::{
    after_prefix, copy_text, copy_texts, decimal, listed, opt_text, same, strip_prefix, texts,
    unsigned_text,
};
use crate::value::{canonical, value_views};

verus! {

/// Where a schema stands in the one around it.
#[derive(Debug, Clone, Copy, PartialEq, Eq, Structural)]
pub enum Place {
    /// It is the schema of a property.
    Property(usize),
    /// It is that of the items of a list.
    Items,
    /// It is that of the properties without one of their own.
    Values,
    /// It is one of those that all hold.
    Part(usize),
    /// It is one of those of which some hold.
    Variant(usize),
}

/// What tells a schema of a document from the others: the name under which it stands, or under
/// which one stands that it is in, and where it is in that one.
#[derive(Debug, PartialEq, Eq)]
pub struct SchemaId {
    pub name: String,
    pub path: Vec<Place>,
}

/// Where a schema stands in the one around it.
pub enum PlaceView {
    Property(int),
    Items,
    Values,
    Part(int),
    Variant(int),
}

/// What tells a schema of a document from the others.
#[verifier::ext_equal]
pub struct IdView {
    pub name: Seq<char>,
    pub path: Seq<PlaceView>,
}

impl Place {
    pub open spec fn view(&self) -> PlaceView {
        match *self {
            Place::Property(i) => PlaceView::Property(i as int),
            Place::Items => PlaceView::Items,
            Place::Values => PlaceView::Values,
            Place::Part(i) => PlaceView::Part(i as int),
            Place::Variant(i) => PlaceView::Variant(i as int),
        }
    }
}

impl SchemaId {
    pub open spec fn view(&self) -> IdView {
        IdView { name: self.name@, path: self.path@.map_values(|p: Place| p@) }
    }
}

/// What the ids of a list are.
pub open spec fn id_views(ids: Seq<SchemaId>) -> Seq<IdView> {
    ids.map_values(|id: SchemaId| id@)
}

/// The schema under a name.
pub open spec fn top(name: Seq<char>) -> IdView {
    IdView { name, path: Seq::empty() }
}

/// The schema at a place in another.
pub open spec fn inner(id: IdView, place: PlaceView) -> IdView {
    IdView { name: id.name, path: id.path.push(place) }
}

/// The schema that `r` is, `own` being what tells it from others if it is one itself, or the one
/// that it refers to. A reference to a reference is none.
pub open spec fn target(schemas: Seq<Named>, r: RefTree, own: IdView) -> Option<
    (IdView, SchemaTree),
> {
    match r {
        RefTree::Item(s) => Some((own, *s)),
        RefTree::Reference(text) => match after_prefix(text, "#/components/schemas/"@) {
            Some(name) => match named_schema(schemas, name) {
                Some(RefTree::Item(s)) => Some((top(name), *s)),
                _ => None,
            },
            None => None,
        },
    }
}

/// How many of the schemas that have names are not being expanded.
pub open spec fn unopened(schemas: Seq<Named>, open: Seq<IdView>) -> nat
    decreases schemas.len(),
{
    if schemas.len() == 0 {
        0
    } else {
        unopened(schemas.drop_first(), open) + if open.contains(top(schemas[0].0)) {
            0nat
        } else {
            1nat
        }
    }
}

/// To expand a schema leaves no more of them that are not being expanded.
pub proof fn lemma_unopened_not_more(schemas: Seq<Named>, open: Seq<IdView>, id: IdView)
    ensures
        unopened(schemas, open.push(id)) <= unopened(schemas, open),
    decreases schemas.len(),
{
    if schemas.len() > 0 {
        lemma_unopened_not_more(schemas.drop_first(), open, id);
        let first = top(schemas[0].0);
        if open.contains(first) {
            let i = choose|i: int| 0 <= i < open.len() && open[i] == first;
            assert(open.push(id)[i] == first);
        }
    }
}

/// To expand a schema that has a name leaves fewer of them that are not being expanded.
pub proof fn lemma_unopened_less(schemas: Seq<Named>, open: Seq<IdView>, name: Seq<char>)
    requires
        named_schema(schemas, name) is Some,
        !open.contains(top(name)),
    ensures
        unopened(schemas, open.push(top(name))) < unopened(schemas, open),
    decreases schemas.len(),
{
    if schemas[0].0 == name {
        lemma_unopened_not_more(schemas.drop_first(), open, top(name));
        assert(open.push(top(name))[open.len() as int] == top(name));
    } else {
        lemma_unopened_less(schemas.drop_first(), open, name);
        let first = top(schemas[0].0);
        if open.contains(first) {
            let i = choose|i: int| 0 <= i < open.len() && open[i] == first;
            assert(open.push(top(name))[i] == first);
        }
    }
}

/// The fields of an object and the names of those that are required.
#[verifier::ext_equal]
pub struct Collected {
    pub fields: Seq<FieldView>,
    pub required: Seq<Seq<char>>,
}

/// The texts among the choices.
pub open spec fn text_choices(choices: Seq<Option<Seq<char>>>) -> Seq<JsonView>
    decreases choices.len(),
{
    if choices.len() == 0 {
        Seq::empty()
    } else {
        match choices.last() {
            Some(text) => text_choices(choices.drop_last()).push(JsonView::String(text)),
            None => text_choices(choices.drop_last()),
        }
    }
}

/// The choices, if there are any.
pub open spec fn some_choices(choices: Seq<JsonView>) -> Option<Seq<JsonView>> {
    if choices.len() == 0 {
        None
    } else {
        Some(choices)
    }
}

/// The values that a schema gives as choices, if it gives any.
pub open spec fn choices_of(kind: KindTree) -> Option<Seq<JsonView>> {
    match kind {
        KindTree::Typed(TypeTree::String { choices, .. }) => some_choices(text_choices(choices)),
        KindTree::Any(any) => some_choices(any.choices),
        _ => None,
    }
}

/// A known format as OpenAPI writes it.
pub open spec fn known_text(format: KnownFormat) -> Seq<char> {
    match format {
        KnownFormat::Date => "date"@,
        KnownFormat::DateTime => "date-time"@,
        KnownFormat::Password => "password"@,
        KnownFormat::Byte => "byte"@,
        KnownFormat::Binary => "binary"@,
        KnownFormat::Float => "float"@,
        KnownFormat::Double => "double"@,
        KnownFormat::Int32 => "int32"@,
        KnownFormat::Int64 => "int64"@,
    }
}

/// A format as text, as it is written in a document.
pub open spec fn format_text(format: FormatView) -> Option<Seq<char>> {
    match format {
        FormatView::Known(format) => Some(known_text(format)),
        FormatView::Unknown(text) => Some(text),
        FormatView::Absent => None,
    }
}

/// The format that a schema gives, if it gives one.
pub open spec fn format_of(kind: KindTree) -> Option<Seq<char>> {
    match kind {
        KindTree::Typed(TypeTree::String { format, .. }) => format_text(format),
        KindTree::Typed(TypeTree::Integer { format }) => format_text(format),
        KindTree::Typed(TypeTree::Number { format }) => format_text(format),
        KindTree::Any(any) => any.format,
        _ => None,
    }
}

/// The field that a schema or a reference to one describes, `open` being the schemas that are being
/// expanded: of one of them nothing but its name is known. There is no field if the reference leads
/// nowhere.
pub open spec fn field_at(
    schemas: Seq<Named>,
    open: Seq<IdView>,
    name: Seq<char>,
    r: RefTree,
    own: IdView,
) -> Option<FieldView>
    decreases unopened(schemas, open), r, 2nat,
{
    match target(schemas, r, own) {
        Some((id, s)) => Some(
            if open.contains(id) {
                any_field_view(name)
            } else {
                proof {
                    lemma_unopened_not_more(schemas, open, id);
                    if r is Reference {
                        lemma_unopened_less(schemas, open, id.name);
                    }
                }
                opened_field(schemas, open.push(id), name, id, s)
            },
        ),
        None => None,
    }
}

/// The field that a schema describes.
pub open spec fn opened_field(
    schemas: Seq<Named>,
    open: Seq<IdView>,
    name: Seq<char>,
    id: IdView,
    s: SchemaTree,
) -> FieldView
    decreases unopened(schemas, open), s, 2nat,
{
    FieldView {
        name,
        description: s.description,
        field_type: type_at(schemas, open, id, s.kind),
        required: false,
        default: s.default,
        enum_values: choices_of(s.kind),
        variants: variants_at(schemas, open, id, s.kind),
        format: format_of(s.kind),
    }
}

/// An object with these fields, or anything if there are none.
pub open spec fn object_or_any(fields: Seq<FieldView>) -> FieldTypeView {
    if fields.len() == 0 {
        FieldTypeView::Any
    } else {
        FieldTypeView::Object(fields)
    }
}

/// A list whose items have this schema.
pub open spec fn array_at(
    schemas: Seq<Named>,
    open: Seq<IdView>,
    id: IdView,
    items: Option<RefTree>,
) -> FieldTypeView
    decreases unopened(schemas, open), items, 0nat,
{
    let item = match items {
        Some(r) => match field_at(schemas, open, "items"@, r, inner(id, PlaceView::Items)) {
            Some(field) => field,
            None => any_field_view("items"@),
        },
        None => any_field_view("items"@),
    };
    FieldTypeView::Array(Box::new(item))
}

/// The type that a schema describes.
pub open spec fn type_at(
    schemas: Seq<Named>,
    open: Seq<IdView>,
    id: IdView,
    kind: KindTree,
) -> FieldTypeView
    decreases unopened(schemas, open), kind, 1nat,
{
    match kind {
        KindTree::Typed(TypeTree::String { .. }) => FieldTypeView::String,
        KindTree::Typed(TypeTree::Integer { .. }) => FieldTypeView::Integer,
        KindTree::Typed(TypeTree::Number { .. }) => FieldTypeView::Number,
        KindTree::Typed(TypeTree::Boolean) => FieldTypeView::Boolean,
        KindTree::Typed(TypeTree::Object { properties, required, values }) => if properties.len() > 0 {
            FieldTypeView::Object(properties_at(schemas, open, id, properties, required))
        } else {
            match values {
                Some(r) => match field_at(
                    schemas,
                    open,
                    "value"@,
                    r,
                    inner(id, PlaceView::Values),
                ) {
                    Some(field) => FieldTypeView::Mapping(Some(Box::new(field))),
                    None => FieldTypeView::Mapping(None),
                },
                None => FieldTypeView::Mapping(None),
            }
        },
        KindTree::Typed(TypeTree::Array { items }) => array_at(schemas, open, id, items),
        KindTree::AllOf(parts) => object_or_any(joint(schemas, open, id, parts).fields),
        KindTree::Any(any) => if any.all_of.len() > 0 {
            object_or_any(joint(schemas, open, id, any.all_of).fields)
        } else if any.properties.len() > 0 {
            FieldTypeView::Object(properties_at(schemas, open, id, any.properties, any.required))
        } else {
            match any.typ {
                Some(typ) => if typ == "string"@ {
                    FieldTypeView::String
                } else if typ == "integer"@ {
                    FieldTypeView::Integer
                } else if typ == "number"@ {
                    FieldTypeView::Number
                } else if typ == "boolean"@ {
                    FieldTypeView::Boolean
                } else if typ == "array"@ {
                    array_at(schemas, open, id, any.items)
                } else {
                    FieldTypeView::Any
                },
                None => FieldTypeView::Any,
            }
        },
        _ => FieldTypeView::Any,
    }
}

/// The fields that properties describe. There is none for a reference that leads nowhere.
pub open spec fn properties_at(
    schemas: Seq<Named>,
    open: Seq<IdView>,
    id: IdView,
    properties: Seq<Named>,
    required: Seq<Seq<char>>,
) -> Seq<FieldView>
    decreases unopened(schemas, open), properties, 0nat,
{
    if properties.len() == 0 {
        Seq::empty()
    } else {
        let i = properties.len() - 1;
        let before = properties_at(schemas, open, id, properties.drop_last(), required);
        match field_at(
            schemas,
            open,
            properties[i].0,
            properties[i].1,
            inner(id, PlaceView::Property(i)),
        ) {
            Some(field) => before.push(
                FieldView { required: required.contains(properties[i].0), ..field },
            ),
            None => before,
        }
    }
}

/// The fields of an object that a schema describes.
pub open spec fn collected(
    schemas: Seq<Named>,
    open: Seq<IdView>,
    id: IdView,
    kind: KindTree,
) -> Collected
    decreases unopened(schemas, open), kind, 0nat,
{
    match kind {
        KindTree::Typed(TypeTree::Object { properties, required, .. }) => Collected {
            fields: properties_at(schemas, open, id, properties, required),
            required,
        },
        KindTree::AllOf(parts) => joint(schemas, open, id, parts),
        KindTree::Any(any) => if any.properties.len() > 0 {
            Collected {
                fields: properties_at(schemas, open, id, any.properties, any.required),
                required: any.required,
            }
        } else {
            Collected { fields: Seq::empty(), required: Seq::empty() }
        },
        _ => Collected { fields: Seq::empty(), required: Seq::empty() },
    }
}

/// What the schemas of a list describe one after the other, but for those that are being expanded
/// and for references that lead nowhere.
pub open spec fn parts_at(
    schemas: Seq<Named>,
    open: Seq<IdView>,
    id: IdView,
    parts: Seq<RefTree>,
) -> Collected
    decreases unopened(schemas, open), parts, 0nat,
{
    if parts.len() == 0 {
        Collected { fields: Seq::empty(), required: Seq::empty() }
    } else {
        let i = parts.len() - 1;
        let before = parts_at(schemas, open, id, parts.drop_last());
        match target(schemas, parts[i], inner(id, PlaceView::Part(i))) {
            Some((part, s)) => if open.contains(part) {
                before
            } else {
                proof {
                    lemma_unopened_not_more(schemas, open, part);
                    if parts[i] is Reference {
                        lemma_unopened_less(schemas, open, part.name);
                    }
                }
                let this = collected(schemas, open.push(part), part, s.kind);
                Collected {
                    fields: before.fields + this.fields,
                    required: before.required + this.required,
                }
            },
            None => before,
        }
    }
}

/// The fields, those with one of the names being required.
pub open spec fn with_required(fields: Seq<FieldView>, required: Seq<Seq<char>>) -> Seq<FieldView> {
    fields.map_values(
        |f: FieldView| FieldView { required: f.required || required.contains(f.name), ..f },
    )
}

/// What the schemas of a list describe together: a field is required if any of them says so.
pub open spec fn joint(
    schemas: Seq<Named>,
    open: Seq<IdView>,
    id: IdView,
    parts: Seq<RefTree>,
) -> Collected
    decreases unopened(schemas, open), parts, 1nat,
{
    let all = parts_at(schemas, open, id, parts);
    Collected { fields: with_required(all.fields, all.required), required: all.required }
}

/// The variants that a schema describes, if it describes any.
pub open spec fn variants_at(
    schemas: Seq<Named>,
    open: Seq<IdView>,
    id: IdView,
    kind: KindTree,
) -> Option<Seq<FieldView>>
    decreases unopened(schemas, open), kind, 1nat,
{
    match kind {
        KindTree::OneOf(list) => some_variants(variant_fields(schemas, open, id, list)),
        KindTree::AnyOf(list) => some_variants(variant_fields(schemas, open, id, list)),
        _ => None,
    }
}

/// The variants, if there are any.
pub open spec fn some_variants(fields: Seq<FieldView>) -> Option<Seq<FieldView>> {
    if fields.len() == 0 {
        None
    } else {
        Some(fields)
    }
}

/// The fields that the schemas of a list describe, each called a variant and by its position.
/// There is none for a reference that leads nowhere.
pub open spec fn variant_fields(
    schemas: Seq<Named>,
    open: Seq<IdView>,
    id: IdView,
    list: Seq<RefTree>,
) -> Seq<FieldView>
    decreases unopened(schemas, open), list, 0nat,
{
    if list.len() == 0 {
        Seq::empty()
    } else {
        let i = list.len() - 1;
        let before = variant_fields(schemas, open, id, list.drop_last());
        match field_at(
            schemas,
            open,
            "variant_"@ + decimal(i as nat),
            list[i],
            inner(id, PlaceView::Variant(i)),
        ) {
            Some(field) => before.push(field),
            None => before,
        }
    }
}

/// The schema of a resource. The schema that describes it does not itself count as being expanded.
pub open spec fn resource_at(schemas: Seq<Named>, id: IdView, s: SchemaTree) -> ResourceSchemaView {
    ResourceSchemaView {
        fields: collected(schemas, Seq::empty(), id, s.kind).fields,
        description: s.description,
    }
}

/// The schema of a resource from the schemas of an OpenAPI v3 document, or why there is none.
pub open spec fn resource_from(schemas: Seq<Named>, r: ResolvedView) -> Result<
    ResourceSchemaView,
    SchemaErrorView,
> {
    match definition_key(schemas.map_values(|e: Named| e.0), r) {
        None => Err(no_key(r)),
        Some(key) => match named_schema(schemas, key) {
            None => Err(SchemaErrorView::NotFound(key)),
            Some(tree) => match target(schemas, tree, top(key)) {
                None => Err(SchemaErrorView::Unresolved(key)),
                Some((id, s)) => Ok(resource_at(schemas, id, s)),
            },
        },
    }
}

/// The schema of a resource from an OpenAPI v3 spec, or why there is none.
pub open spec fn v3_schema(spec_json: JsonView, r: ResolvedView) -> Result<
    ResourceSchemaView,
    SchemaErrorView,
> {
    match canonical(spec_json) {
        None => Err(SchemaErrorView::NotJson),
        Some(j) => match read_document(j) {
            Err(text) => Err(SchemaErrorView::Unparsed(text)),
            Ok(None) => Err(SchemaErrorView::NoComponents),
            Ok(Some(schemas)) => resource_from(schemas, r),
        },
    }
}

fn same_id(a: &SchemaId, b: &SchemaId) -> (r: bool)
    ensures
        r == (a@ == b@),
{
    if !same(a.name.as_str(), b.name.as_str()) {
        return false;
    }
    if a.path.len() != b.path.len() {
        proof {
            assert(a@.path.len() != b@.path.len());
        }
        return false;
    }
    let mut i: usize = 0;
    while i < a.path.len()
        invariant
            i <= a.path@.len(),
            a.path@.len() == b.path@.len(),
            forall|j: int| 0 <= j < i ==> a.path@[j] == b.path@[j],
        decreases a.path@.len() - i,
    {
        if a.path[i] != b.path[i] {
            proof {
                assert(a@.path[i as int] == a.path@[i as int]@);
                assert(b@.path[i as int] == b.path@[i as int]@);
                assert(a.path@[i as int]@ != b.path@[i as int]@);
            }
            return false;
        }
        i = i + 1;
    }
    proof {
        assert(a@.path =~= b@.path);
    }
    true
}

fn is_open(open: &Vec<SchemaId>, id: &SchemaId) -> (r: bool)
    ensures
        r == id_views(open@).contains(id@),
{
    let mut i: usize = 0;
    while i < open.len()
        invariant
            i <= open@.len(),
            forall|j: int| 0 <= j < i ==> id_views(open@)[j] != id@,
        decreases open@.len() - i,
    {
        if same_id(&open[i], id) {
            proof {
                assert(id_views(open@)[i as int] == id@);
            }
            return true;
        }
        i = i + 1;
    }
    false
}

fn copy_id(id: &SchemaId) -> (r: SchemaId)
    ensures
        r@ == id@,
{
    let mut path: Vec<Place> = Vec::new();
    let mut i: usize = 0;
    while i < id.path.len()
        invariant
            i <= id.path@.len(),
            path@ == id.path@.take(i as int),
        decreases id.path@.len() - i,
    {
        path.push(id.path[i]);
        i = i + 1;
    }
    proof {
        assert(path@ =~= id.path@);
    }
    SchemaId { name: id.name.clone(), path }
}

fn inner_id(id: &SchemaId, place: Place) -> (r: SchemaId)
    ensures
        r@ == inner(id@, place@),
{
    let mut r: SchemaId = copy_id(id);
    r.path.push(place);
    proof {
        assert(r@.path =~= inner(id@, place@).path);
    }
    r
}

fn top_id(name: &str) -> (r: SchemaId)
    ensures
        r@ == top(name@),
{
    let r = SchemaId { name: name.to_owned(), path: Vec::new() };
    proof {
        assert(r@ =~= top(name@));
    }
    r
}

fn open_id(open: &mut Vec<SchemaId>, id: &SchemaId)
    ensures
        id_views(final(open)@) == id_views(old(open)@).push(id@),
{
    let copy: SchemaId = copy_id(id);
    proof {
        assert(id_views(open@.push(copy)) =~= id_views(open@).push(id@));
    }
    open.push(copy);
}

fn close_id(open: &mut Vec<SchemaId>)
    requires
        old(open)@.len() > 0,
    ensures
        id_views(final(open)@) == id_views(old(open)@).drop_last(),
{
    open.pop();
    proof {
        assert(id_views(open@) =~= id_views(old(open)@).drop_last());
    }
}

/// The texts among the choices, as values.
fn text_values(choices: &Vec<Option<String>>) -> (r: Vec<Json>)
    ensures
        json_views(r@) == text_choices(choice_views(choices@)),
{
    let ghost all = choice_views(choices@);
    let mut r: Vec<Json> = Vec::new();
    let mut i: usize = 0;
    proof {
        assert(json_views(r@) =~= text_choices(all.take(0)));
    }
    while i < choices.len()
        invariant
            i <= choices@.len(),
            all == choice_views(choices@),
            json_views(r@) == text_choices(all.take(i as int)),
        decreases choices@.len() - i,
    {
        proof {
            assert(all.take(i + 1).drop_last() =~= all.take(i as int));
            assert(all.take(i + 1).last() == opt_text(choices@[i as int]));
        }
        if let Some(text) = &choices[i] {
            let value: Json = Json::String(text.clone());
            proof {
                lemma_json_views_push(r@, value);
            }
            r.push(value);
        }
        i = i + 1;
    }
    proof {
        assert(all.take(i as int) =~= all);
    }
    r
}

fn values_of(values: &Vec<serde_json::Value>) -> (r: Vec<Json>)
    ensures
        json_views(r@) == value_views(values@),
{
    let ghost all = value_views(values@);
    let mut r: Vec<Json> = Vec::new();
    let mut i: usize = 0;
    proof {
        assert(json_views(r@) =~= all.take(0));
    }
    while i < values.len()
        invariant
            i <= values@.len(),
            all == value_views(values@),
            json_views(r@) == all.take(i as int),
        decreases values@.len() - i,
    {
        let value: Json = Json::from_value(&values[i]);
        proof {
            lemma_json_views_push(r@, value);
            assert(all.take(i + 1) =~= all.take(i as int).push(value@));
        }
        r.push(value);
        i = i + 1;
    }
    proof {
        assert(all.take(i as int) =~= all);
    }
    r
}

fn non_empty(values: Vec<Json>) -> (r: Option<Vec<Json>>)
    ensures
        opt_json_list(r) == some_choices(json_views(values@)),
{
    if values.len() == 0 {
        None
    } else {
        Some(values)
    }
}

/// The values that a schema gives as choices, if it gives any.
pub fn oa_enum_values(kind: &openapiv3::SchemaKind) -> (r: Option<Vec<Json>>)
    ensures
        opt_json_list(r) == choices_of(kind_view(*kind)),
{
    match kind_parts(kind) {
        KindParts::Type(t) => match type_parts(t) {
            TypeParts::String(_, choices) => non_empty(text_values(choices)),
            _ => None,
        },
        KindParts::Any(any) => non_empty(values_of(any_parts(any).enumeration)),
        _ => None,
    }
}

/// A known format as OpenAPI writes it.
fn known_name(format: KnownFormat) -> (r: &'static str)
    ensures
        r@ == known_text(format),
{
    match format {
        KnownFormat::Date => "date",
        KnownFormat::DateTime => "date-time",
        KnownFormat::Password => "password",
        KnownFormat::Byte => "byte",
        KnownFormat::Binary => "binary",
        KnownFormat::Float => "float",
        KnownFormat::Double => "double",
        KnownFormat::Int32 => "int32",
        KnownFormat::Int64 => "int64",
    }
}

/// A format as text.
fn variant_or_unknown_to_string(format: FormatParts) -> (r: Option<String>)
    ensures
        opt_text(r) == format_text(format@),
{
    match format {
        FormatParts::Known(format) => Some(known_name(format).to_owned()),
        FormatParts::Unknown(text) => Some(text),
        FormatParts::Absent => None,
    }
}

/// The format that a schema gives, if it gives one.
pub fn oa_format(kind: &openapiv3::SchemaKind) -> (r: Option<String>)
    ensures
        opt_text(r) == format_of(kind_view(*kind)),
{
    match kind_parts(kind) {
        KindParts::Type(t) => match type_parts(t) {
            TypeParts::String(format, _) => variant_or_unknown_to_string(string_format(format)),
            TypeParts::Integer(format) => variant_or_unknown_to_string(integer_format(format)),
            TypeParts::Number(format) => variant_or_unknown_to_string(number_format(format)),
            _ => None,
        },
        KindParts::Any(any) => copy_text(any_parts(any).format),
        _ => None,
    }
}

/// A schema of an object with these parts.
pub open spec fn object_kind(
    properties: Properties,
    required: Seq<String>,
    additional: Option<openapiv3::AdditionalProperties>,
) -> KindTree {
    KindTree::Typed(
        TypeTree::Object {
            properties: properties_view(properties),
            required: texts(required),
            values: opt_additional(additional),
        },
    )
}

/// What resolves the references between the schemas of a document.
pub struct Ctx<'a> {
    pub schemas: &'a Schemas,
}

impl<'a> Ctx<'a> {
    /// What the schemas are.
    pub open spec fn view(&self) -> Seq<Named> {
        schemas_view(*self.schemas)
    }

    fn resolve(&self, r: RefParts<'a>, own: SchemaId) -> (t: Option<
        (SchemaId, &'a openapiv3::Schema),
    >)
        ensures
            match t {
                Some((id, s)) => target(self@, r.whole(), own@) == Some((id@, schema_view(*s))),
                None => target(self@, r.whole(), own@) is None,
            },
    {
        match r {
            RefParts::Item(s) => Some((own, s)),
            RefParts::Reference(text) => match strip_prefix(
                text.as_str(),
                "#/components/schemas/",
            ) {
                Some(name) => match schema_named(self.schemas, name) {
                    Some(found) => match reference_parts(found) {
                        RefParts::Item(s) => Some((top_id(name), s)),
                        RefParts::Reference(_) => None,
                    },
                    None => None,
                },
                None => None,
            },
        }
    }

    /// The field that a schema or a reference to one describes.
    pub fn field(
        &self,
        open: &mut Vec<SchemaId>,
        name: &str,
        r: RefParts<'a>,
        own: SchemaId,
    ) -> (f: Option<FieldSchema>)
        ensures
            match f {
                Some(field) => field_at(
                    self@,
                    id_views(old(open)@),
                    name@,
                    r.whole(),
                    own@,
                ) == Some(field@),
                None => field_at(
                    self@,
                    id_views(old(open)@),
                    name@,
                    r.whole(),
                    own@,
                ) is None,
            },
            id_views(final(open)@) == id_views(old(open)@),
        decreases unopened(self@, id_views(old(open)@)), r.whole(), 2nat,
    {
        broadcast use lemma_field_view;

        let ghost before = id_views(open@);
        match self.resolve(r, own) {
            Some((id, s)) => {
                // One that is being expanded: a cycle
                if is_open(open, &id) {
                    return Some(any_field(name));
                }
                let parts = schema_parts(s);
                proof {
                    lemma_unopened_not_more(self@, before, id@);
                    if r.whole() is Reference {
                        lemma_unopened_less(self@, before, id@.name);
                    } else {
                        assert(decreases_to!(r.whole() => *r.whole()->Item_0));
                    }
                    assert(decreases_to!(schema_view(*s) => schema_view(*s).kind));
                }
                open_id(open, &id);
                let field_type: FieldType = self.field_type(open, &id, parts.kind);
                let variants: Option<Vec<FieldSchema>> = self.variants(open, &id, parts.kind);
                proof {
                    assert(id_views(open@).len() == open@.len());
                    assert(before.push(id@).drop_last() =~= before);
                }
                close_id(open);
                let default: Option<Json> = match parts.default {
                    Some(v) => Some(Json::from_value(v)),
                    None => None,
                };
                Some(
                    FieldSchema {
                        name: name.to_owned(),
                        description: copy_text(parts.description),
                        field_type,
                        required: false,
                        default,
                        enum_values: oa_enum_values(parts.kind),
                        variants,
                        format: oa_format(parts.kind),
                    },
                )
            },
            None => None,
        }
    }

    /// The type that a schema describes.
    pub fn field_type(
        &self,
        open: &mut Vec<SchemaId>,
        id: &SchemaId,
        kind: &'a openapiv3::SchemaKind,
    ) -> (r: FieldType)
        ensures
            r@ == type_at(self@, id_views(old(open)@), id@, kind_view(*kind)),
            id_views(final(open)@) == id_views(old(open)@),
        decreases unopened(self@, id_views(old(open)@)), kind_view(*kind), 1nat,
    {
        broadcast use lemma_field_type_view;

        match kind_parts(kind) {
            KindParts::Type(t) => match type_parts(t) {
                TypeParts::String(_, _) => FieldType::String,
                TypeParts::Integer(_) => FieldType::Integer,
                TypeParts::Number(_) => FieldType::Number,
                TypeParts::Boolean => FieldType::Boolean,
                TypeParts::Object(properties, required, additional) => self.object_type(
                    open,
                    id,
                    properties,
                    required,
                    additional,
                ),
                TypeParts::Array(items) => self.array_type(open, id, items),
            },
            KindParts::AllOf(parts) => {
                let (fields, _required) = self.joint_fields(open, id, parts);
                if fields.len() == 0 {
                    FieldType::Any
                } else {
                    FieldType::Object(fields)
                }
            },
            KindParts::Any(any) => self.any_type(open, id, any),
            _ => FieldType::Any,
        }
    }

    fn object_type(
        &self,
        open: &mut Vec<SchemaId>,
        id: &SchemaId,
        properties: &'a Properties,
        required: &Vec<String>,
        additional: &'a Option<openapiv3::AdditionalProperties>,
    ) -> (r: FieldType)
        ensures
            r@ == type_at(
                self@,
                id_views(old(open)@),
                id@,
                object_kind(*properties, required@, *additional),
            ),
            id_views(final(open)@) == id_views(old(open)@),
        decreases
                unopened(self@, id_views(old(open)@)),
                object_kind(*properties, required@, *additional),
                0nat,
    {
        broadcast use lemma_field_type_view;

        let listed_properties = properties_of(properties);
        proof {
            assert(properties_view(*properties).len() == listed_properties@.len());
        }
        if listed_properties.len() > 0 {
            FieldType::Object(self.property_fields(open, id, properties, required))
        } else {
            match additional {
                Some(a) => match additional_schema(a) {
                    Some(s) => match self.field(
                        open,
                        "value",
                        reference_parts(s),
                        inner_id(id, Place::Values),
                    ) {
                        Some(field) => FieldType::Mapping(Some(Box::new(field))),
                        None => FieldType::Mapping(None),
                    },
                    None => FieldType::Mapping(None),
                },
                None => FieldType::Mapping(None),
            }
        }
    }

    fn array_type(
        &self,
        open: &mut Vec<SchemaId>,
        id: &SchemaId,
        items: &'a Option<openapiv3::ReferenceOr<Box<openapiv3::Schema>>>,
    ) -> (r: FieldType)
        ensures
            r@ == array_at(self@, id_views(old(open)@), id@, opt_boxed(*items)),
            id_views(final(open)@) == id_views(old(open)@),
        decreases unopened(self@, id_views(old(open)@)), opt_boxed(*items), 0nat,
    {
        broadcast use lemma_field_type_view;

        let item: FieldSchema = match items {
            Some(r) => match self.field(
                open,
                "items",
                boxed_parts(r),
                inner_id(id, Place::Items),
            ) {
                Some(field) => field,
                None => any_field("items"),
            },
            None => any_field("items"),
        };
        FieldType::Array(Box::new(item))
    }

    /// The type that a schema of no particular form describes.
    pub fn any_type(
        &self,
        open: &mut Vec<SchemaId>,
        id: &SchemaId,
        any: &'a openapiv3::AnySchema,
    ) -> (r: FieldType)
        ensures
            r@ == type_at(self@, id_views(old(open)@), id@, KindTree::Any(any_view(*any))),
            id_views(final(open)@) == id_views(old(open)@),
        decreases unopened(self@, id_views(old(open)@)), KindTree::Any(any_view(*any)), 0nat,
    {
        broadcast use lemma_field_type_view;

        let parts = any_parts(any);
        if parts.all_of.len() > 0 {
            let (fields, _required) = self.joint_fields(open, id, parts.all_of);
            return if fields.len() == 0 {
                FieldType::Any
            } else {
                FieldType::Object(fields)
            };
        }
        let listed_properties = properties_of(parts.properties);
        proof {
            assert(properties_view(*parts.properties).len() == listed_properties@.len());
        }
        if listed_properties.len() > 0 {
            return FieldType::Object(
                self.property_fields(open, id, parts.properties, parts.required),
            );
        }
        match parts.typ {
            Some(typ) => {
                let typ: &str = typ.as_str();
                if same(typ, "string") {
                    FieldType::String
                } else if same(typ, "integer") {
                    FieldType::Integer
                } else if same(typ, "number") {
                    FieldType::Number
                } else if same(typ, "boolean") {
                    FieldType::Boolean
                } else if same(typ, "array") {
                    self.array_type(open, id, parts.items)
                } else {
                    FieldType::Any
                }
            },
            None => FieldType::Any,
        }
    }

    fn property_fields(
        &self,
        open: &mut Vec<SchemaId>,
        id: &SchemaId,
        properties: &'a Properties,
        required: &Vec<String>,
    ) -> (r: Vec<FieldSchema>)
        ensures
            field_views(r@) == properties_at(
                self@,
                id_views(old(open)@),
                id@,
                properties_view(*properties),
                texts(required@),
            ),
            id_views(final(open)@) == id_views(old(open)@),
        decreases unopened(self@, id_views(old(open)@)), properties_view(*properties), 0nat,
    {
        broadcast use lemma_field_view;

        let ghost before = id_views(open@);
        let ghost all = properties_view(*properties);
        let entries = properties_of(properties);
        let mut fields: Vec<FieldSchema> = Vec::new();
        let mut i: usize = 0;
        proof {
            assert(all.len() == entries@.len());
            assert(field_views(fields@) =~= properties_at(
                self@,
                before,
                id@,
                all.take(0),
                texts(required@),
            ));
        }
        while i < entries.len()
            invariant
                i <= entries@.len(),
                all == properties_view(*properties),
                all == entries@.map_values(
                    |e: (&String, &openapiv3::ReferenceOr<Box<openapiv3::Schema>>)|
                        (e.0@, boxed_view(*e.1)),
                ),
                before == id_views(old(open)@),
                id_views(open@) == before,
                field_views(fields@) == properties_at(
                    self@,
                    before,
                    id@,
                    all.take(i as int),
                    texts(required@),
                ),
            decreases entries@.len() - i,
        {
            let name: &str = entries[i].0.as_str();
            proof {
                assert(all[i as int] == (name@, boxed_view(*entries@[i as int].1)));
                assert(decreases_to!(all => all[i as int]));
                assert(decreases_to!(all[i as int] => all[i as int].1));
                assert(all.take(i + 1).drop_last() =~= all.take(i as int));
            }
            let field: Option<FieldSchema> = self.field(
                open,
                name,
                boxed_parts(entries[i].1),
                inner_id(id, Place::Property(i)),
            );
            if let Some(mut field) = field {
                field.required = listed(required, name);
                proof {
                    lemma_field_views_push(fields@, field);
                }
                fields.push(field);
            }
            i = i + 1;
        }
        proof {
            assert(all.take(i as int) =~= all);
        }
        fields
    }

    /// The fields of an object that a schema describes, and the names of those that are required.
    pub fn collect_object_fields(
        &self,
        open: &mut Vec<SchemaId>,
        id: &SchemaId,
        kind: &'a openapiv3::SchemaKind,
    ) -> (r: (Vec<FieldSchema>, Vec<String>))
        ensures
            ({
                let c = collected(self@, id_views(old(open)@), id@, kind_view(*kind));
                &&& field_views(r.0@) == c.fields
                &&& texts(r.1@) == c.required
            }),
            id_views(final(open)@) == id_views(old(open)@),
        decreases unopened(self@, id_views(old(open)@)), kind_view(*kind), 0nat,
    {
        let nothing: (Vec<FieldSchema>, Vec<String>) = (Vec::new(), Vec::new());
        proof {
            assert(field_views(nothing.0@) =~= Seq::empty());
            assert(texts(nothing.1@) =~= Seq::empty());
        }
        proof {
            let k = kind_view(*kind);
            assert(k is Typed ==> decreases_to!(k => k->Typed_0));
            assert(k is Typed && k->Typed_0 is Object ==> decreases_to!(k->Typed_0
                => k->Typed_0->Object_properties));
            assert(k is AllOf ==> decreases_to!(k => k->AllOf_0));
            assert(k is Any ==> decreases_to!(k => k->Any_0));
            assert(k is Any ==> decreases_to!(k->Any_0 => k->Any_0.properties));
        }
        match kind_parts(kind) {
            KindParts::Type(t) => match type_parts(t) {
                TypeParts::Object(properties, required, _) => (
                    self.property_fields(open, id, properties, required),
                    copy_texts(required),
                ),
                _ => nothing,
            },
            KindParts::AllOf(parts) => self.joint_fields(open, id, parts),
            KindParts::Any(any) => {
                let parts = any_parts(any);
                let listed_properties = properties_of(parts.properties);
                proof {
                    assert(properties_view(*parts.properties).len() == listed_properties@.len());
                }
                if listed_properties.len() > 0 {
                    (
                        self.property_fields(open, id, parts.properties, parts.required),
                        copy_texts(parts.required),
                    )
                } else {
                    nothing
                }
            },
            _ => nothing,
        }
    }

    fn joint_fields(
        &self,
        open: &mut Vec<SchemaId>,
        id: &SchemaId,
        parts: &'a Vec<openapiv3::ReferenceOr<openapiv3::Schema>>,
    ) -> (r: (Vec<FieldSchema>, Vec<String>))
        ensures
            ({
                let c = joint(self@, id_views(old(open)@), id@, reference_views(parts@));
                &&& field_views(r.0@) == c.fields
                &&& texts(r.1@) == c.required
            }),
            id_views(final(open)@) == id_views(old(open)@),
        decreases unopened(self@, id_views(old(open)@)), reference_views(parts@), 1nat,
    {
        let ghost before = id_views(open@);
        let ghost all = reference_views(parts@);
        let mut fields: Vec<FieldSchema> = Vec::new();
        let mut required: Vec<String> = Vec::new();
        let mut i: usize = 0;
        proof {
            assert(field_views(fields@) =~= parts_at(self@, before, id@, all.take(0)).fields);
            assert(texts(required@) =~= parts_at(self@, before, id@, all.take(0)).required);
        }
        while i < parts.len()
            invariant
                i <= parts@.len(),
                all == reference_views(parts@),
                before == id_views(old(open)@),
                id_views(open@) == before,
                field_views(fields@) == parts_at(self@, before, id@, all.take(i as int)).fields,
                texts(required@) == parts_at(self@, before, id@, all.take(i as int)).required,
            decreases parts@.len() - i,
        {
            let own: SchemaId = inner_id(id, Place::Part(i));
            proof {
                assert(all[i as int] == reference_view(parts@[i as int]));
                assert(decreases_to!(all => all[i as int]));
                assert(all.take(i + 1).drop_last() =~= all.take(i as int));
            }
            if let Some((part, s)) = self.resolve(reference_parts(&parts[i]), own) {
                // One that is being expanded is skipped: a cycle
                if !is_open(open, &part) {
                    proof {
                        lemma_unopened_not_more(self@, before, part@);
                        if all[i as int] is Reference {
                            lemma_unopened_less(self@, before, part@.name);
                        } else {
                            assert(decreases_to!(all[i as int] => *all[i as int]->Item_0));
                        }
                        assert(decreases_to!(schema_view(*s) => schema_view(*s).kind));
                    }
                    open_id(open, &part);
                    let (mut more, mut names) = self.collect_object_fields(
                        open,
                        &part,
                        schema_parts(s).kind,
                    );
                    proof {
                        assert(id_views(open@).len() == open@.len());
                        assert(before.push(part@).drop_last() =~= before);
                        assert(field_views(fields@ + more@) =~= field_views(fields@)
                            + field_views(more@));
                        assert(texts(required@ + names@) =~= texts(required@) + texts(names@));
                    }
                    close_id(open);
                    fields.append(&mut more);
                    required.append(&mut names);
                }
            }
            i = i + 1;
        }
        proof {
            assert(all.take(i as int) =~= all);
        }
        require(&mut fields, &required);
        (fields, required)
    }

    /// The variants that a schema describes, if it describes any.
    pub fn variants(
        &self,
        open: &mut Vec<SchemaId>,
        id: &SchemaId,
        kind: &'a openapiv3::SchemaKind,
    ) -> (r: Option<Vec<FieldSchema>>)
        ensures
            opt_field_list(r) == variants_at(self@, id_views(old(open)@), id@, kind_view(*kind)),
            id_views(final(open)@) == id_views(old(open)@),
        decreases unopened(self@, id_views(old(open)@)), kind_view(*kind), 1nat,
    {
        let list = match kind_parts(kind) {
            KindParts::OneOf(list) => list,
            KindParts::AnyOf(list) => list,
            _ => {
                return None;
            },
        };
        let ghost before = id_views(open@);
        let ghost all = reference_views(list@);
        let mut fields: Vec<FieldSchema> = Vec::new();
        let mut i: usize = 0;
        proof {
            assert(field_views(fields@) =~= variant_fields(self@, before, id@, all.take(0)));
        }
        while i < list.len()
            invariant
                i <= list@.len(),
                all == reference_views(list@),
                kind_view(*kind) == KindTree::OneOf(all) || kind_view(*kind) == KindTree::AnyOf(
                    all,
                ),
                before == id_views(old(open)@),
                id_views(open@) == before,
                field_views(fields@) == variant_fields(self@, before, id@, all.take(i as int)),
            decreases list@.len() - i,
        {
            proof {
                assert(all[i as int] == reference_view(list@[i as int]));
                assert(kind_view(*kind) is OneOf ==> decreases_to!(kind_view(*kind) => kind_view(
                    *kind,
                )->OneOf_0));
                assert(kind_view(*kind) is AnyOf ==> decreases_to!(kind_view(*kind) => kind_view(
                    *kind,
                )->AnyOf_0));
                assert(decreases_to!(all => all[i as int]));
                assert(all.take(i + 1).drop_last() =~= all.take(i as int));
            }
            let mut name: String = "variant_".to_owned();
            name.append(unsigned_text(i as u64).as_str());
            let field: Option<FieldSchema> = self.field(
                open,
                name.as_str(),
                reference_parts(&list[i]),
                inner_id(id, Place::Variant(i)),
            );
            if let Some(field) = field {
                proof {
                    lemma_field_views_push(fields@, field);
                }
                fields.push(field);
            }
            i = i + 1;
        }
        proof {
            assert(all.take(i as int) =~= all);
        }
        if fields.len() == 0 {
            None
        } else {
            Some(fields)
        }
    }

    /// The schema of a resource.
    pub fn resource_schema(&self, id: &SchemaId, schema: &'a openapiv3::Schema) -> (r: ResourceSchema)
        ensures
            r@ == resource_at(self@, id@, schema_view(*schema)),
    {
        let parts = schema_parts(schema);
        let mut open: Vec<SchemaId> = Vec::new();
        proof {
            assert(id_views(open@) =~= Seq::empty());
        }
        let (fields, _required) = self.collect_object_fields(&mut open, id, parts.kind);
        ResourceSchema { fields, description: copy_text(parts.description) }
    }
}

fn require(fields: &mut Vec<FieldSchema>, required: &Vec<String>)
    ensures
        field_views(final(fields)@) == with_required(
            field_views(old(fields)@),
            texts(required@),
        ),
{
    broadcast use lemma_field_view;

    let ghost whole = with_required(field_views(fields@), texts(required@));
    let mut old_fields: Vec<FieldSchema> = Vec::new();
    old_fields.append(fields);
    let mut new_fields: Vec<FieldSchema> = Vec::new();
    proof {
        assert(field_views(old_fields@) =~= field_views(old(fields)@));
        assert(field_views(new_fields@) =~= whole.take(0));
    }
    for field in it: old_fields
        invariant
            whole == with_required(field_views(it.seq()), texts(required@)),
            field_views(new_fields@) == whole.take(it.index() as int),
    {
        let mut field: FieldSchema = field;
        if listed(required, field.name.as_str()) {
            field.required = true;
        }
        proof {
            assert(whole[it.index() as int] == field@);
            lemma_field_views_push(new_fields@, field);
            assert(whole.take(it.index() as int + 1) =~= whole.take(it.index() as int).push(
                field@,
            ));
        }
        new_fields.push(field);
    }
    proof {
        assert(whole.take(whole.len() as int) =~= whole);
    }
    *fields = new_fields;
}

/// The schema of a resource from an OpenAPI v3 spec.
pub fn schema_from_v3(spec_json: &Json, resolved: &ResolvedResource) -> (r: Result<
    ResourceSchema,
    SchemaError,
>)
    ensures
        match r {
            Ok(schema) => v3_schema(spec_json@, resolved@) == Ok::<
                ResourceSchemaView,
                SchemaErrorView,
            >(schema@),
            Err(e) => v3_schema(spec_json@, resolved@) == Err::<
                ResourceSchemaView,
                SchemaErrorView,
            >(e@),
        },
{
    let value: serde_json::Value = match spec_json.to_value() {
        Ok(value) => value,
        Err(_) => {
            return Err(SchemaError::NotJson);
        },
    };
    let document: openapiv3::OpenAPI = match read_openapi(value) {
        Ok(document) => document,
        Err(text) => {
            return Err(SchemaError::Unparsed(text));
        },
    };
    match schemas_of(&document) {
        Some(schemas) => resource_in(schemas, resolved),
        None => Err(SchemaError::NoComponents),
    }
}

/// The schema of a resource from the schemas of an OpenAPI v3 document.
pub fn resource_in(schemas: &Schemas, resolved: &ResolvedResource) -> (r: Result<
    ResourceSchema,
    SchemaError,
>)
    ensures
        match r {
            Ok(schema) => resource_from(schemas_view(*schemas), resolved@) == Ok::<
                ResourceSchemaView,
                SchemaErrorView,
            >(schema@),
            Err(e) => resource_from(schemas_view(*schemas), resolved@) == Err::<
                ResourceSchemaView,
                SchemaErrorView,
            >(e@),
        },
{
    let key: String = match find_definition_key(schema_names(schemas).as_slice(), resolved) {
        Ok(key) => key,
        Err(e) => {
            return Err(e);
        },
    };
    let ctx = Ctx { schemas };
    let found = match schema_named(schemas, key.as_str()) {
        Some(found) => found,
        None => {
            return Err(SchemaError::NotFound(key));
        },
    };
    match ctx.resolve(reference_parts(found), top_id(key.as_str())) {
        Some((id, schema)) => Ok(ctx.resource_schema(&id, schema)),
        None => Err(SchemaError::Unresolved(key)),
    }
}

/// A reference to a schema describes the field that the schema describes, unless the schema is being
/// expanded; then nothing but the name of the field is known.
pub proof fn lemma_reference(
    schemas: Seq<Named>,
    open: Seq<IdView>,
    name: Seq<char>,
    key: Seq<char>,
    own: IdView,
)
    requires
        named_schema(schemas, key) matches Some(RefTree::Item(_)),
    ensures
        field_at(
            schemas,
            open,
            name,
            RefTree::Reference("#/components/schemas/"@ + key),
            own,
        ) == Some(
            if open.contains(top(key)) {
                any_field_view(name)
            } else {
                opened_field(
                    schemas,
                    open.push(top(key)),
                    name,
                    top(key),
                    *named_schema(schemas, key)->0->Item_0,
                )
            },
        ),
{
    let prefix = "#/components/schemas/"@;
    let text = prefix + key;
    assert(prefix =~= text.take(prefix.len() as int));
    assert(text.subrange(prefix.len() as int, text.len() as int) =~= key);
}

proof fn lemma_named_schema_some(schemas: Seq<Named>, name: Seq<char>, i: int)
    requires
        0 <= i < schemas.len(),
        schemas[i].0 == name,
    ensures
        named_schema(schemas, name) is Some,
    decreases schemas.len(),
{
    if schemas[0].0 != name {
        assert(schemas.drop_first()[i - 1] == schemas[i]);
        lemma_named_schema_some(schemas.drop_first(), name, i - 1);
    }
}

/// A schema that has been found is there: the error that there is none under its key does not come
/// up.
pub proof fn lemma_v3_key_is_there(schemas: Seq<Named>, r: ResolvedView, key: Seq<char>)
    ensures
        resource_from(schemas, r) != Err::<ResourceSchemaView, SchemaErrorView>(
            SchemaErrorView::NotFound(key),
        ),
{
    let names = schemas.map_values(|e: Named| e.0);
    lemma_definition_key(names, r);
    match definition_key(names, r) {
        Some(found) => {
            let i = choose|i: int| 0 <= i < names.len() && names[i] == found;
            lemma_named_schema_some(schemas, found, i);
        },
        None => {},
    }
}

/// What a list of schemas describes together has the fields of each of them in turn, and a field is
/// required if any of the schemas says so.
pub proof fn lemma_joint(
    schemas: Seq<Named>,
    open: Seq<IdView>,
    id: IdView,
    parts: Seq<RefTree>,
    i: int,
)
    requires
        0 <= i < joint(schemas, open, id, parts).fields.len(),
    ensures
        ({
            let each = parts_at(schemas, open, id, parts);
            let together = joint(schemas, open, id, parts);
            &&& together.fields.len() == each.fields.len()
            &&& together.fields[i].name == each.fields[i].name
            &&& together.fields[i].required <==> each.fields[i].required
                || each.required.contains(each.fields[i].name)
        }),
{
}

proof fn lemma_field_name(
    schemas: Seq<Named>,
    open: Seq<IdView>,
    name: Seq<char>,
    r: RefTree,
    own: IdView,
)
    ensures
        field_at(schemas, open, name, r, own) matches Some(field) ==> field.name == name,
{
    match target(schemas, r, own) {
        Some((id, s)) => {
            assert(opened_field(schemas, open.push(id), name, id, s).name == name);
        },
        None => {},
    }
}

/// Each field of an object is one of its properties, under its name, and it is required if the
/// object says so.
pub proof fn lemma_fields_are_properties(
    schemas: Seq<Named>,
    open: Seq<IdView>,
    id: IdView,
    properties: Seq<Named>,
    required: Seq<Seq<char>>,
    i: int,
)
    requires
        0 <= i < properties_at(schemas, open, id, properties, required).len(),
    ensures
        ({
            let field = properties_at(schemas, open, id, properties, required)[i];
            &&& exists|k: int| 0 <= k < properties.len() && (#[trigger] properties[k]).0 == field.name
            &&& field.required == required.contains(field.name)
        }),
    decreases properties.len(),
{
    let fields = properties_at(schemas, open, id, properties, required);
    let rest = properties.drop_last();
    let before = properties_at(schemas, open, id, rest, required);
    if i < before.len() {
        lemma_fields_are_properties(schemas, open, id, rest, required, i);
        let k = choose|k: int| 0 <= k < rest.len() && (#[trigger] rest[k]).0 == before[i].name;
        assert(properties[k] == rest[k]);
        assert(fields[i] == before[i]);
    } else {
        let last = properties.last();
        let own = inner(id, PlaceView::Property(properties.len() - 1));
        lemma_field_name(schemas, open, last.0, last.1, own);
        assert(properties[properties.len() - 1].0 == fields[i].name);
    }
}

/// A schema of no particular form whose parts all hold has the type of those parts together,
/// whatever else it says: an object with their fields, or anything if they have none.
pub proof fn lemma_any_with_parts(
    schemas: Seq<Named>,
    open: Seq<IdView>,
    id: IdView,
    any: AnyTree,
)
    requires
        any.all_of.len() > 0,
    ensures
        type_at(schemas, open, id, KindTree::Any(any)) == type_at(
            schemas,
            open,
            id,
            KindTree::AllOf(any.all_of),
        ),
        match type_at(schemas, open, id, KindTree::Any(any)) {
            FieldTypeView::Object(fields) => fields.len() > 0 && fields == joint(
                schemas,
                open,
                id,
                any.all_of,
            ).fields,
            FieldTypeView::Any => joint(schemas, open, id, any.all_of).fields.len() == 0,
            _ => false,
        },
{
}

}
