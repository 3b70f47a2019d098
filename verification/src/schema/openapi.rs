//! The bridge to the documents of `openapiv3`.

use openapiv3::{IntegerFormat, NumberFormat, StringFormat, VariantOrUnknownOrEmpty};
use vstd::prelude::*;

use crate::json::JsonView;
use crate::text::{opt_text, texts};
use crate::value::{value_view, value_views};

verus! {

/// An OpenAPI v3 document.
#[verifier::external_type_specification]
#[verifier::external_body]
pub struct ExOpenApi(openapiv3::OpenAPI);

/// A schema of a document.
#[verifier::external_type_specification]
#[verifier::external_body]
pub struct ExSchema(openapiv3::Schema);

/// What a schema says beside its description and its default.
#[verifier::external_type_specification]
#[verifier::external_body]
pub struct ExSchemaKind(openapiv3::SchemaKind);

/// What a schema with a type of its own says.
#[verifier::external_type_specification]
#[verifier::external_body]
pub struct ExType(openapiv3::Type);

/// What a schema of no particular form says.
#[verifier::external_type_specification]
#[verifier::external_body]
pub struct ExAnySchema(openapiv3::AnySchema);

/// What a schema says of properties without a schema of their own.
#[verifier::external_type_specification]
#[verifier::external_body]
pub struct ExAdditionalProperties(openapiv3::AdditionalProperties);

/// An item, or the name of one.
#[verifier::external_type_specification]
#[verifier::external_body]
#[verifier::reject_recursive_types(T)]
pub struct ExReferenceOr<T>(openapiv3::ReferenceOr<T>);

/// A format, which may be an unknown one.
#[verifier::external_type_specification]
#[verifier::external_body]
#[verifier::reject_recursive_types(T)]
pub struct ExVariantOrUnknownOrEmpty<T>(openapiv3::VariantOrUnknownOrEmpty<T>);

/// A known format of strings.
#[verifier::external_type_specification]
#[verifier::external_body]
pub struct ExStringFormat(openapiv3::StringFormat);

/// A known format of numbers.
#[verifier::external_type_specification]
#[verifier::external_body]
pub struct ExNumberFormat(openapiv3::NumberFormat);

/// A known format of integers.
#[verifier::external_type_specification]
#[verifier::external_body]
pub struct ExIntegerFormat(openapiv3::IntegerFormat);

/// A map that keeps the order of its entries.
#[verifier::external_type_specification]
#[verifier::external_body]
#[verifier::reject_recursive_types(K)]
#[verifier::reject_recursive_types(V)]
#[verifier::reject_recursive_types(S)]
pub struct ExIndexMap<K, V, S>(indexmap::IndexMap<K, V, S>);

/// The schemas of a document by their names.
pub type Schemas = indexmap::IndexMap<String, openapiv3::ReferenceOr<openapiv3::Schema>>;

/// The properties of a schema by their names.
pub type Properties = indexmap::IndexMap<
    String,
    openapiv3::ReferenceOr<Box<openapiv3::Schema>>,
>;

/// A schema, or the text of a reference to one.
#[verifier::ext_equal]
pub enum RefTree {
    Reference(Seq<char>),
    Item(Box<SchemaTree>),
}

/// A name and the schema under it.
pub type Named = (Seq<char>, RefTree);

/// A schema.
#[verifier::ext_equal]
pub struct SchemaTree {
    pub description: Option<Seq<char>>,
    pub default: Option<JsonView>,
    pub kind: KindTree,
}

/// A format that OpenAPI knows.
#[derive(Debug, Clone, Copy, PartialEq, Eq, Structural)]
pub enum KnownFormat {
    Date,
    DateTime,
    Password,
    Byte,
    Binary,
    Float,
    Double,
    Int32,
    Int64,
}

/// A format: a known one, an unknown one as it is written, or none.
pub enum FormatView {
    Known(KnownFormat),
    Unknown(Seq<char>),
    Absent,
}

/// What a schema says beside its description and its default.
#[verifier::ext_equal]
pub enum KindTree {
    Typed(TypeTree),
    OneOf(Seq<RefTree>),
    AllOf(Seq<RefTree>),
    AnyOf(Seq<RefTree>),
    Not,
    Any(AnyTree),
}

/// What a schema with a type of its own says.
#[verifier::ext_equal]
pub enum TypeTree {
    String { format: FormatView, choices: Seq<Option<Seq<char>>> },
    Number { format: FormatView },
    Integer { format: FormatView },
    Boolean,
    Object {
        properties: Seq<(Seq<char>, RefTree)>,
        required: Seq<Seq<char>>,
        /// The schema of the properties without one of their own.
        values: Option<RefTree>,
    },
    Array { items: Option<RefTree> },
}

/// What a schema of no particular form says.
#[verifier::ext_equal]
pub struct AnyTree {
    pub typ: Option<Seq<char>>,
    pub properties: Seq<(Seq<char>, RefTree)>,
    pub required: Seq<Seq<char>>,
    pub items: Option<RefTree>,
    pub all_of: Seq<RefTree>,
    pub choices: Seq<JsonView>,
    pub format: Option<Seq<char>>,
}

/// What `serde_json` reads a JSON value as, if it is an OpenAPI v3 document: its schemas, if it has
/// components. If it is none, what `serde_json` says of it.
pub uninterp spec fn read_document(j: JsonView) -> Result<Option<Seq<Named>>, Seq<char>>;

/// What a document holds: its schemas, if it has components.
pub uninterp spec fn document_view(d: openapiv3::OpenAPI) -> Option<Seq<Named>>;

/// What a map of schemas holds, in order.
pub uninterp spec fn schemas_view(m: Schemas) -> Seq<Named>;

/// What a map of properties holds, in order.
pub uninterp spec fn properties_view(m: Properties) -> Seq<Named>;

/// What a schema or a reference to one holds.
pub uninterp spec fn reference_view(r: openapiv3::ReferenceOr<openapiv3::Schema>) -> RefTree;

/// What a boxed schema or a reference to one holds.
pub uninterp spec fn boxed_view(r: openapiv3::ReferenceOr<Box<openapiv3::Schema>>) -> RefTree;

/// What a schema holds.
pub uninterp spec fn schema_view(s: openapiv3::Schema) -> SchemaTree;

/// What a schema holds beside its description and its default.
pub uninterp spec fn kind_view(k: openapiv3::SchemaKind) -> KindTree;

/// What a schema with a type of its own holds.
pub uninterp spec fn type_view(t: openapiv3::Type) -> TypeTree;

/// What a schema of no particular form holds.
pub uninterp spec fn any_view(a: openapiv3::AnySchema) -> AnyTree;

/// The schema of properties without one of their own, if there is one.
pub uninterp spec fn additional_view(a: openapiv3::AdditionalProperties) -> Option<RefTree>;

/// What a format of strings is.
pub uninterp spec fn string_format_view(
    f: openapiv3::VariantOrUnknownOrEmpty<openapiv3::StringFormat>,
) -> FormatView;

/// What a format of numbers is.
pub uninterp spec fn number_format_view(
    f: openapiv3::VariantOrUnknownOrEmpty<openapiv3::NumberFormat>,
) -> FormatView;

/// What a format of integers is.
pub uninterp spec fn integer_format_view(
    f: openapiv3::VariantOrUnknownOrEmpty<openapiv3::IntegerFormat>,
) -> FormatView;

/// `serde_json::from_value` for an OpenAPI v3 document: whether the value is one, and with which
/// schemas, is named `read_document`, and so is the text of the error.
#[verifier::external_body]
pub(crate) fn read_openapi(v: serde_json::Value) -> (r: Result<openapiv3::OpenAPI, String>)
    ensures
        match r {
            Ok(d) => read_document(value_view(v)) == Ok::<Option<Seq<Named>>, Seq<char>>(
                document_view(d),
            ),
            Err(text) => read_document(value_view(v)) == Err::<Option<Seq<Named>>, Seq<char>>(
                text@,
            ),
        },
{
    serde_json::from_value(v).map_err(|e: serde_json::Error| e.to_string())
}

/// The field `components` of a document and the field `schemas` in it.
#[verifier::external_body]
pub(crate) fn schemas_of(d: &openapiv3::OpenAPI) -> (r: Option<&Schemas>)
    ensures
        match r {
            Some(m) => document_view(*d) == Some(schemas_view(*m)),
            None => document_view(*d) is None,
        },
{
    d.components.as_ref().map(|c| &c.schemas)
}

/// The first schema of that name.
pub open spec fn named_schema(schemas: Seq<Named>, name: Seq<char>) -> Option<RefTree>
    decreases schemas.len(),
{
    if schemas.len() == 0 {
        None
    } else if schemas[0].0 == name {
        Some(schemas[0].1)
    } else {
        named_schema(schemas.drop_first(), name)
    }
}

/// `IndexMap::keys`: the names in order.
#[verifier::external_body]
pub(crate) fn schema_names(m: &Schemas) -> (r: Vec<String>)
    ensures
        texts(r@) == schemas_view(*m).map_values(|e: Named| e.0),
{
    m.keys().cloned().collect()
}

/// `IndexMap::get`: the schema of that name; a map has no more than one.
#[verifier::external_body]
pub(crate) fn schema_named<'a>(m: &'a Schemas, name: &str) -> (r: Option<
    &'a openapiv3::ReferenceOr<openapiv3::Schema>,
>)
    ensures
        match r {
            Some(s) => named_schema(schemas_view(*m), name@) == Some(reference_view(*s)),
            None => named_schema(schemas_view(*m), name@) is None,
        },
{
    m.get(name)
}

/// `IndexMap::iter`: the properties in order.
#[verifier::external_body]
pub(crate) fn properties_of<'a>(m: &'a Properties) -> (r: Vec<
    (&'a String, &'a openapiv3::ReferenceOr<Box<openapiv3::Schema>>),
>)
    ensures
        properties_view(*m) == r@.map_values(
            |e: (&String, &openapiv3::ReferenceOr<Box<openapiv3::Schema>>)|
                (e.0@, boxed_view(*e.1)),
        ),
{
    m.iter().collect()
}

/// A schema, or the text of a reference to one.
pub enum RefParts<'a> {
    Reference(&'a String),
    Item(&'a openapiv3::Schema),
}

impl<'a> RefParts<'a> {
    /// What was taken apart.
    pub open spec fn whole(self) -> RefTree {
        match self {
            RefParts::Reference(text) => RefTree::Reference(text@),
            RefParts::Item(s) => RefTree::Item(Box::new(schema_view(*s))),
        }
    }
}

/// Tells the variants of `ReferenceOr<Schema>` apart.
#[verifier::external_body]
pub(crate) fn reference_parts<'a>(r: &'a openapiv3::ReferenceOr<openapiv3::Schema>) -> (p: RefParts<
    'a,
>)
    ensures
        p.whole() == reference_view(*r),
{
    match r {
        openapiv3::ReferenceOr::Reference { reference } => RefParts::Reference(reference),
        openapiv3::ReferenceOr::Item(s) => RefParts::Item(s),
    }
}

/// Tells the variants of `ReferenceOr<Box<Schema>>` apart.
#[verifier::external_body]
pub(crate) fn boxed_parts<'a>(
    r: &'a openapiv3::ReferenceOr<Box<openapiv3::Schema>>,
) -> (p: RefParts<'a>)
    ensures
        p.whole() == boxed_view(*r),
{
    match r {
        openapiv3::ReferenceOr::Reference { reference } => RefParts::Reference(reference),
        openapiv3::ReferenceOr::Item(s) => RefParts::Item(s),
    }
}

/// What an optional value of `serde_json` holds.
pub open spec fn opt_value(v: Option<serde_json::Value>) -> Option<JsonView> {
    match v {
        Some(j) => Some(value_view(j)),
        None => None,
    }
}

/// The parts of a schema.
pub struct SchemaParts<'a> {
    pub description: &'a Option<String>,
    pub default: &'a Option<serde_json::Value>,
    pub kind: &'a openapiv3::SchemaKind,
}

impl<'a> SchemaParts<'a> {
    /// The schema that was taken apart.
    pub open spec fn whole(self) -> SchemaTree {
        SchemaTree {
            description: opt_text(*self.description),
            default: opt_value(*self.default),
            kind: kind_view(*self.kind),
        }
    }
}

/// The fields `schema_data.description`, `schema_data.default` and `schema_kind` of a schema.
#[verifier::external_body]
pub(crate) fn schema_parts<'a>(s: &'a openapiv3::Schema) -> (p: SchemaParts<'a>)
    ensures
        p.whole() == schema_view(*s),
{
    SchemaParts {
        description: &s.schema_data.description,
        default: &s.schema_data.default,
        kind: &s.schema_kind,
    }
}

/// What the schemas of a list are.
pub open spec fn reference_views(
    list: Seq<openapiv3::ReferenceOr<openapiv3::Schema>>,
) -> Seq<RefTree> {
    list.map_values(|r: openapiv3::ReferenceOr<openapiv3::Schema>| reference_view(r))
}

/// A schema by its form.
pub enum KindParts<'a> {
    Type(&'a openapiv3::Type),
    OneOf(&'a Vec<openapiv3::ReferenceOr<openapiv3::Schema>>),
    AllOf(&'a Vec<openapiv3::ReferenceOr<openapiv3::Schema>>),
    AnyOf(&'a Vec<openapiv3::ReferenceOr<openapiv3::Schema>>),
    Not,
    Any(&'a openapiv3::AnySchema),
}

impl<'a> KindParts<'a> {
    /// What was taken apart.
    pub open spec fn whole(self) -> KindTree {
        match self {
            KindParts::Type(t) => KindTree::Typed(type_view(*t)),
            KindParts::OneOf(list) => KindTree::OneOf(reference_views(list@)),
            KindParts::AllOf(list) => KindTree::AllOf(reference_views(list@)),
            KindParts::AnyOf(list) => KindTree::AnyOf(reference_views(list@)),
            KindParts::Not => KindTree::Not,
            KindParts::Any(any) => KindTree::Any(any_view(*any)),
        }
    }
}

/// Tells the variants of `SchemaKind` apart.
#[verifier::external_body]
pub(crate) fn kind_parts<'a>(k: &'a openapiv3::SchemaKind) -> (p: KindParts<'a>)
    ensures
        p.whole() == kind_view(*k),
{
    match k {
        openapiv3::SchemaKind::Type(t) => KindParts::Type(t),
        openapiv3::SchemaKind::OneOf { one_of } => KindParts::OneOf(one_of),
        openapiv3::SchemaKind::AllOf { all_of } => KindParts::AllOf(all_of),
        openapiv3::SchemaKind::AnyOf { any_of } => KindParts::AnyOf(any_of),
        openapiv3::SchemaKind::Not { .. } => KindParts::Not,
        openapiv3::SchemaKind::Any(any) => KindParts::Any(any),
    }
}

/// What the choices of a list are.
pub open spec fn choice_views(choices: Seq<Option<String>>) -> Seq<Option<Seq<char>>> {
    choices.map_values(|c: Option<String>| opt_text(c))
}

/// What an optional boxed schema or reference is.
pub open spec fn opt_boxed(
    r: Option<openapiv3::ReferenceOr<Box<openapiv3::Schema>>>,
) -> Option<RefTree> {
    match r {
        Some(s) => Some(boxed_view(s)),
        None => None,
    }
}

/// A schema with a type of its own, by that type.
pub enum TypeParts<'a> {
    String(
        &'a openapiv3::VariantOrUnknownOrEmpty<openapiv3::StringFormat>,
        &'a Vec<Option<String>>,
    ),
    Number(&'a openapiv3::VariantOrUnknownOrEmpty<openapiv3::NumberFormat>),
    Integer(&'a openapiv3::VariantOrUnknownOrEmpty<openapiv3::IntegerFormat>),
    Object(&'a Properties, &'a Vec<String>, &'a Option<openapiv3::AdditionalProperties>),
    Array(&'a Option<openapiv3::ReferenceOr<Box<openapiv3::Schema>>>),
    Boolean,
}

/// The schema of properties without one of their own, if anything is said of them and there is
/// one.
pub open spec fn opt_additional(a: Option<openapiv3::AdditionalProperties>) -> Option<RefTree> {
    match a {
        Some(additional) => additional_view(additional),
        None => None,
    }
}

impl<'a> TypeParts<'a> {
    /// What was taken apart.
    pub open spec fn whole(self) -> TypeTree {
        match self {
            TypeParts::String(format, choices) => TypeTree::String {
                format: string_format_view(*format),
                choices: choice_views(choices@),
            },
            TypeParts::Number(format) => TypeTree::Number { format: number_format_view(*format) },
            TypeParts::Integer(format) => TypeTree::Integer {
                format: integer_format_view(*format),
            },
            TypeParts::Object(properties, required, additional) => TypeTree::Object {
                properties: properties_view(*properties),
                required: texts(required@),
                values: opt_additional(*additional),
            },
            TypeParts::Array(items) => TypeTree::Array { items: opt_boxed(*items) },
            TypeParts::Boolean => TypeTree::Boolean,
        }
    }
}

/// Tells the variants of `Type` apart.
#[verifier::external_body]
pub(crate) fn type_parts<'a>(t: &'a openapiv3::Type) -> (p: TypeParts<'a>)
    ensures
        p.whole() == type_view(*t),
{
    match t {
        openapiv3::Type::String(s) => TypeParts::String(&s.format, &s.enumeration),
        openapiv3::Type::Number(n) => TypeParts::Number(&n.format),
        openapiv3::Type::Integer(i) => TypeParts::Integer(&i.format),
        openapiv3::Type::Object(o) => {
            TypeParts::Object(&o.properties, &o.required, &o.additional_properties)
        },
        openapiv3::Type::Array(a) => TypeParts::Array(&a.items),
        openapiv3::Type::Boolean(_) => TypeParts::Boolean,
    }
}

/// Tells the variants of `AdditionalProperties` apart.
#[verifier::external_body]
pub(crate) fn additional_schema<'a>(a: &'a openapiv3::AdditionalProperties) -> (r: Option<
    &'a openapiv3::ReferenceOr<openapiv3::Schema>,
>)
    ensures
        match r {
            Some(s) => additional_view(*a) == Some(reference_view(*s)),
            None => additional_view(*a) is None,
        },
{
    match a {
        openapiv3::AdditionalProperties::Schema(s) => Some(s),
        openapiv3::AdditionalProperties::Any(_) => None,
    }
}

/// A format.
pub enum FormatParts {
    Known(KnownFormat),
    Unknown(String),
    Absent,
}

impl FormatParts {
    pub open spec fn view(&self) -> FormatView {
        match *self {
            FormatParts::Known(known) => FormatView::Known(known),
            FormatParts::Unknown(text) => FormatView::Unknown(text@),
            FormatParts::Absent => FormatView::Absent,
        }
    }
}

/// Tells the variants of `VariantOrUnknownOrEmpty<StringFormat>` and of `StringFormat` apart.
#[verifier::external_body]
pub(crate) fn string_format(f: &VariantOrUnknownOrEmpty<StringFormat>) -> (r: FormatParts)
    ensures
        r@ == string_format_view(*f),
{
    match f {
        VariantOrUnknownOrEmpty::Item(StringFormat::Date) => FormatParts::Known(KnownFormat::Date),
        VariantOrUnknownOrEmpty::Item(StringFormat::DateTime) => FormatParts::Known(KnownFormat::DateTime),
        VariantOrUnknownOrEmpty::Item(StringFormat::Password) => FormatParts::Known(KnownFormat::Password),
        VariantOrUnknownOrEmpty::Item(StringFormat::Byte) => FormatParts::Known(KnownFormat::Byte),
        VariantOrUnknownOrEmpty::Item(StringFormat::Binary) => FormatParts::Known(KnownFormat::Binary),
        VariantOrUnknownOrEmpty::Unknown(s) => FormatParts::Unknown(s.clone()),
        VariantOrUnknownOrEmpty::Empty => FormatParts::Absent,
    }
}

/// Tells the variants of `VariantOrUnknownOrEmpty<NumberFormat>` and of `NumberFormat` apart.
#[verifier::external_body]
pub(crate) fn number_format(f: &VariantOrUnknownOrEmpty<NumberFormat>) -> (r: FormatParts)
    ensures
        r@ == number_format_view(*f),
{
    match f {
        VariantOrUnknownOrEmpty::Item(NumberFormat::Float) => FormatParts::Known(KnownFormat::Float),
        VariantOrUnknownOrEmpty::Item(NumberFormat::Double) => FormatParts::Known(KnownFormat::Double),
        VariantOrUnknownOrEmpty::Unknown(s) => FormatParts::Unknown(s.clone()),
        VariantOrUnknownOrEmpty::Empty => FormatParts::Absent,
    }
}

/// Tells the variants of `VariantOrUnknownOrEmpty<IntegerFormat>` and of `IntegerFormat` apart.
#[verifier::external_body]
pub(crate) fn integer_format(f: &VariantOrUnknownOrEmpty<IntegerFormat>) -> (r: FormatParts)
    ensures
        r@ == integer_format_view(*f),
{
    match f {
        VariantOrUnknownOrEmpty::Item(IntegerFormat::Int32) => FormatParts::Known(KnownFormat::Int32),
        VariantOrUnknownOrEmpty::Item(IntegerFormat::Int64) => FormatParts::Known(KnownFormat::Int64),
        VariantOrUnknownOrEmpty::Unknown(s) => FormatParts::Unknown(s.clone()),
        VariantOrUnknownOrEmpty::Empty => FormatParts::Absent,
    }
}

/// The parts of a schema of no particular form.
pub struct AnyParts<'a> {
    pub typ: &'a Option<String>,
    pub properties: &'a Properties,
    pub required: &'a Vec<String>,
    pub items: &'a Option<openapiv3::ReferenceOr<Box<openapiv3::Schema>>>,
    pub all_of: &'a Vec<openapiv3::ReferenceOr<openapiv3::Schema>>,
    pub enumeration: &'a Vec<serde_json::Value>,
    pub format: &'a Option<String>,
}

impl<'a> AnyParts<'a> {
    /// The schema that was taken apart.
    pub open spec fn whole(self) -> AnyTree {
        AnyTree {
            typ: opt_text(*self.typ),
            properties: properties_view(*self.properties),
            required: texts(self.required@),
            items: opt_boxed(*self.items),
            all_of: reference_views(self.all_of@),
            choices: value_views(self.enumeration@),
            format: opt_text(*self.format),
        }
    }
}

/// The fields of `AnySchema` that a field of a resource is made from.
#[verifier::external_body]
pub(crate) fn any_parts<'a>(a: &'a openapiv3::AnySchema) -> (p: AnyParts<'a>)
    ensures
        p.whole() == any_view(*a),
{
    AnyParts {
        typ: &a.typ,
        properties: &a.properties,
        required: &a.required,
        items: &a.items,
        all_of: &a.all_of,
        enumeration: &a.enumeration,
        format: &a.format,
    }
}

}
