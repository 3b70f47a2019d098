//! The fields of a resource.

use vstd::prelude::*;

use crate::json::{json_views, lemma_json_views_push, Json, JsonView};
use crate::text::{copy_text, opt_text};

verus! {

/// A single field in the schema.
#[derive(Debug, PartialEq, Eq)]
pub struct FieldSchema {
    pub name: String,
    pub description: Option<String>,
    pub field_type: FieldType,
    pub required: bool,
    pub default: Option<Json>,
    pub enum_values: Option<Vec<Json>>,
    /// For oneOf/anyOf, the possible variant schemas.
    pub variants: Option<Vec<FieldSchema>>,
    /// Format hint (e.g. "int32", "date-time", "int-or-string")
    pub format: Option<String>,
}

/// The type of a schema field.
#[derive(Debug, PartialEq, Eq)]
pub enum FieldType {
    String,
    Integer,
    Number,
    Boolean,
    Array(Box<FieldSchema>),
    Object(Vec<FieldSchema>),
    /// Free-form object (additionalProperties or no properties defined)
    Mapping(Option<Box<FieldSchema>>),
    /// Unknown/any
    Any,
}

/// The parsed schema for a resource.
#[derive(Debug, PartialEq, Eq)]
pub struct ResourceSchema {
    pub fields: Vec<FieldSchema>,
    pub description: Option<String>,
}

/// What a field is.
#[verifier::ext_equal]
pub struct FieldView {
    pub name: Seq<char>,
    pub description: Option<Seq<char>>,
    pub field_type: FieldTypeView,
    pub required: bool,
    pub default: Option<JsonView>,
    pub enum_values: Option<Seq<JsonView>>,
    pub variants: Option<Seq<FieldView>>,
    pub format: Option<Seq<char>>,
}

/// What the type of a field is.
#[verifier::ext_equal]
pub enum FieldTypeView {
    String,
    Integer,
    Number,
    Boolean,
    Array(Box<FieldView>),
    Object(Seq<FieldView>),
    Mapping(Option<Box<FieldView>>),
    Any,
}

/// What the schema of a resource is.
#[verifier::ext_equal]
pub struct ResourceSchemaView {
    pub fields: Seq<FieldView>,
    pub description: Option<Seq<char>>,
}

/// What an optional value is.
pub open spec fn opt_json(j: Option<Json>) -> Option<JsonView> {
    match j {
        Some(v) => Some(v@),
        None => None,
    }
}

/// What an optional list of values is.
pub open spec fn opt_json_list(list: Option<Vec<Json>>) -> Option<Seq<JsonView>> {
    match list {
        Some(v) => Some(json_views(v@)),
        None => None,
    }
}

impl FieldSchema {
    pub open spec fn view(&self) -> FieldView
        decreases *self,
    {
        FieldView {
            name: self.name@,
            description: opt_text(self.description),
            field_type: self.field_type@,
            required: self.required,
            default: opt_json(self.default),
            enum_values: opt_json_list(self.enum_values),
            variants: match self.variants {
                Some(fields) => Some(
                    Seq::new(
                        fields@.len(),
                        |i: int|
                            if 0 <= i < fields@.len() {
                                fields@[i]@
                            } else {
                                arbitrary()
                            },
                    ),
                ),
                None => None,
            },
            format: opt_text(self.format),
        }
    }
}

impl FieldType {
    pub open spec fn view(&self) -> FieldTypeView
        decreases *self,
    {
        match *self {
            FieldType::String => FieldTypeView::String,
            FieldType::Integer => FieldTypeView::Integer,
            FieldType::Number => FieldTypeView::Number,
            FieldType::Boolean => FieldTypeView::Boolean,
            FieldType::Array(item) => FieldTypeView::Array(Box::new(item@)),
            FieldType::Object(fields) => FieldTypeView::Object(
                Seq::new(
                    fields@.len(),
                    |i: int|
                        if 0 <= i < fields@.len() {
                            fields@[i]@
                        } else {
                            arbitrary()
                        },
                ),
            ),
            FieldType::Mapping(Some(value)) => FieldTypeView::Mapping(Some(Box::new(value@))),
            FieldType::Mapping(None) => FieldTypeView::Mapping(None),
            FieldType::Any => FieldTypeView::Any,
        }
    }
}

/// What the fields of a list are.
pub open spec fn field_views(fields: Seq<FieldSchema>) -> Seq<FieldView> {
    fields.map_values(|f: FieldSchema| f@)
}

/// What an optional list of fields is.
pub open spec fn opt_field_list(list: Option<Vec<FieldSchema>>) -> Option<Seq<FieldView>> {
    match list {
        Some(fields) => Some(field_views(fields@)),
        None => None,
    }
}

impl ResourceSchema {
    pub open spec fn view(&self) -> ResourceSchemaView {
        ResourceSchemaView {
            fields: field_views(self.fields@),
            description: opt_text(self.description),
        }
    }
}

/// What a type is, by its variant.
pub broadcast proof fn lemma_field_type_view(t: FieldType)
    ensures
        #![trigger t@]
        t@ == (match t {
            FieldType::String => FieldTypeView::String,
            FieldType::Integer => FieldTypeView::Integer,
            FieldType::Number => FieldTypeView::Number,
            FieldType::Boolean => FieldTypeView::Boolean,
            FieldType::Array(item) => FieldTypeView::Array(Box::new(item@)),
            FieldType::Object(fields) => FieldTypeView::Object(field_views(fields@)),
            FieldType::Mapping(Some(value)) => FieldTypeView::Mapping(Some(Box::new(value@))),
            FieldType::Mapping(None) => FieldTypeView::Mapping(None),
            FieldType::Any => FieldTypeView::Any,
        }),
{
    match t {
        FieldType::Object(fields) => {
            assert(t@->Object_0 =~= field_views(fields@));
        },
        _ => {},
    }
}

/// What a field is, part by part.
pub broadcast proof fn lemma_field_view(f: FieldSchema)
    ensures
        #![trigger f@]
        f@ == (FieldView {
            name: f.name@,
            description: opt_text(f.description),
            field_type: f.field_type@,
            required: f.required,
            default: opt_json(f.default),
            enum_values: opt_json_list(f.enum_values),
            variants: opt_field_list(f.variants),
            format: opt_text(f.format),
        }),
{
    reveal_with_fuel(FieldSchema::view, 2);
    reveal_with_fuel(FieldType::view, 2);
    lemma_field_type_view(f.field_type);
    match f.variants {
        Some(fields) => {
            assert(f@.variants->0 =~= field_views(fields@));
        },
        None => {},
    }
    match f.field_type {
        FieldType::Object(fields) => {
            assert(f@.field_type->Object_0 =~= field_views(fields@));
        },
        _ => {},
    }
}

pub proof fn lemma_field_views_push(fields: Seq<FieldSchema>, f: FieldSchema)
    ensures
        field_views(fields.push(f)) == field_views(fields).push(f@),
{
    assert(field_views(fields.push(f)) =~= field_views(fields).push(f@));
}

/// A copy of a list of values.
pub fn copy_json_list(list: &Vec<Json>) -> (r: Vec<Json>)
    ensures
        json_views(r@) == json_views(list@),
{
    let mut r: Vec<Json> = Vec::new();
    let mut i: usize = 0;
    while i < list.len()
        invariant
            i <= list@.len(),
            json_views(r@) == json_views(list@).take(i as int),
        decreases list@.len() - i,
    {
        let c: Json = list[i].copy();
        proof {
            lemma_json_views_push(r@, c);
            assert(json_views(list@).take(i + 1) =~= json_views(list@).take(i as int).push(c@));
        }
        r.push(c);
        i = i + 1;
    }
    proof {
        assert(json_views(list@).take(i as int) =~= json_views(list@));
    }
    r
}

fn copy_fields(fields: &Vec<FieldSchema>) -> (r: Vec<FieldSchema>)
    ensures
        field_views(r@) == field_views(fields@),
    decreases field_views(fields@), 0nat,
{
    let ghost all = field_views(fields@);
    let mut r: Vec<FieldSchema> = Vec::new();
    let mut i: usize = 0;
    proof {
        assert(field_views(r@) =~= all.take(0));
    }
    while i < fields.len()
        invariant
            i <= fields@.len(),
            all == field_views(fields@),
            field_views(r@) == all.take(i as int),
        decreases fields@.len() - i,
    {
        proof {
            assert(decreases_to!(all => all[i as int]));
        }
        let field: FieldSchema = fields[i].copy();
        proof {
            lemma_field_views_push(r@, field);
            assert(all.take(i + 1) =~= all.take(i as int).push(field@));
        }
        r.push(field);
        i = i + 1;
    }
    proof {
        assert(all.take(i as int) =~= all);
    }
    r
}

impl FieldType {
    /// A copy of the type.
    pub fn copy(&self) -> (r: FieldType)
        ensures
            r@ == self@,
        decreases self@, 0nat,
    {
        broadcast use lemma_field_type_view;

        match self {
            FieldType::String => FieldType::String,
            FieldType::Integer => FieldType::Integer,
            FieldType::Number => FieldType::Number,
            FieldType::Boolean => FieldType::Boolean,
            FieldType::Array(item) => {
                proof {
                    assert(decreases_to!(self@ => *self@->Array_0));
                }
                FieldType::Array(Box::new(item.copy()))
            },
            FieldType::Object(fields) => {
                proof {
                    assert(decreases_to!(self@ => self@->Object_0));
                }
                FieldType::Object(copy_fields(fields))
            },
            FieldType::Mapping(Some(value)) => {
                proof {
                    assert(decreases_to!(self@ => self@->Mapping_0));
                    assert(decreases_to!(self@->Mapping_0 => *self@->Mapping_0->0));
                }
                FieldType::Mapping(Some(Box::new(value.copy())))
            },
            FieldType::Mapping(None) => FieldType::Mapping(None),
            FieldType::Any => FieldType::Any,
        }
    }
}

impl FieldSchema {
    /// A copy of the field.
    pub fn copy(&self) -> (r: FieldSchema)
        ensures
            r@ == self@,
        decreases self@, 0nat,
    {
        broadcast use lemma_field_view;

        let default: Option<Json> = match &self.default {
            Some(v) => Some(v.copy()),
            None => None,
        };
        let enum_values: Option<Vec<Json>> = match &self.enum_values {
            Some(values) => Some(copy_json_list(values)),
            None => None,
        };
        proof {
            assert(decreases_to!(self@ => self@.field_type));
        }
        let field_type: FieldType = self.field_type.copy();
        let variants: Option<Vec<FieldSchema>> = match &self.variants {
            Some(fields) => {
                proof {
                    assert(decreases_to!(self@ => self@.variants));
                    assert(decreases_to!(self@.variants => self@.variants->0));
                }
                Some(copy_fields(fields))
            },
            None => None,
        };
        FieldSchema {
            name: self.name.clone(),
            description: copy_text(&self.description),
            field_type,
            required: self.required,
            default,
            enum_values,
            variants,
            format: copy_text(&self.format),
        }
    }
}

impl Clone for FieldType {
    fn clone(&self) -> (r: FieldType)
        ensures
            r@ == self@,
    {
        self.copy()
    }
}

impl Clone for FieldSchema {
    fn clone(&self) -> (r: FieldSchema)
        ensures
            r@ == self@,
    {
        self.copy()
    }
}

impl Clone for ResourceSchema {
    fn clone(&self) -> (r: ResourceSchema)
        ensures
            r@ == self@,
    {
        ResourceSchema {
            fields: copy_fields(&self.fields),
            description: copy_text(&self.description),
        }
    }
}

/// A field of which nothing but its name is known.
pub open spec fn any_field_view(name: Seq<char>) -> FieldView {
    FieldView {
        name,
        description: None,
        field_type: FieldTypeView::Any,
        required: false,
        default: None,
        enum_values: None,
        variants: None,
        format: None,
    }
}

/// A field of which nothing but its name is known.
pub fn any_field(name: &str) -> (r: FieldSchema)
    ensures
        r@ == any_field_view(name@),
{
    broadcast use lemma_field_type_view, lemma_field_view;

    FieldSchema {
        name: name.to_owned(),
        description: None,
        field_type: FieldType::Any,
        required: false,
        default: None,
        enum_values: None,
        variants: None,
        format: None,
    }
}

/// What the fields of a list of references are.
pub open spec fn field_ref_views(fields: Seq<&FieldSchema>) -> Seq<FieldView> {
    fields.map_values(|f: &FieldSchema| f@)
}

/// References to the fields of a list.
pub fn field_refs(fields: &[FieldSchema]) -> (r: Vec<&FieldSchema>)
    ensures
        field_ref_views(r@) == field_views(fields@),
{
    let mut r: Vec<&FieldSchema> = Vec::new();
    let mut i: usize = 0;
    while i < fields.len()
        invariant
            i <= fields@.len(),
            r@.len() == i,
            forall|j: int| 0 <= j < i ==> *r@[j] == fields@[j],
        decreases fields@.len() - i,
    {
        r.push(&fields[i]);
        i = i + 1;
    }
    proof {
        assert(field_ref_views(r@) =~= field_views(fields@));
    }
    r
}

/// A field without its description and those of the fields in it.
pub open spec fn field_undescribed(f: FieldView) -> FieldView
    decreases f,
{
    FieldView {
        description: None,
        field_type: type_undescribed(f.field_type),
        variants: match f.variants {
            Some(fields) => Some(
                Seq::new(
                    fields.len(),
                    |i: int|
                        if 0 <= i < fields.len() {
                            field_undescribed(fields[i])
                        } else {
                            arbitrary()
                        },
                ),
            ),
            None => None,
        },
        ..f
    }
}

/// A type without the descriptions of the fields in it.
pub open spec fn type_undescribed(t: FieldTypeView) -> FieldTypeView
    decreases t,
{
    match t {
        FieldTypeView::Array(item) => FieldTypeView::Array(Box::new(field_undescribed(*item))),
        FieldTypeView::Object(fields) => FieldTypeView::Object(
            Seq::new(
                fields.len(),
                |i: int|
                    if 0 <= i < fields.len() {
                        field_undescribed(fields[i])
                    } else {
                        arbitrary()
                    },
            ),
        ),
        FieldTypeView::Mapping(Some(value)) => FieldTypeView::Mapping(
            Some(Box::new(field_undescribed(*value))),
        ),
        _ => t,
    }
}

/// Fields without descriptions.
pub open spec fn fields_undescribed(fields: Seq<FieldView>) -> Seq<FieldView> {
    fields.map_values(|f: FieldView| field_undescribed(f))
}

/// The schema of a resource without descriptions.
pub open spec fn schema_undescribed(schema: ResourceSchemaView) -> ResourceSchemaView {
    ResourceSchemaView { fields: fields_undescribed(schema.fields), description: None }
}

/// A type without descriptions, by its variant.
pub proof fn lemma_type_undescribed(t: FieldTypeView)
    ensures
        type_undescribed(t) == (match t {
            FieldTypeView::Array(item) => FieldTypeView::Array(
                Box::new(field_undescribed(*item)),
            ),
            FieldTypeView::Object(fields) => FieldTypeView::Object(fields_undescribed(fields)),
            FieldTypeView::Mapping(Some(value)) => FieldTypeView::Mapping(
                Some(Box::new(field_undescribed(*value))),
            ),
            _ => t,
        }),
{
    match t {
        FieldTypeView::Object(fields) => {
            assert(type_undescribed(t)->Object_0 =~= fields_undescribed(fields));
        },
        _ => {},
    }
}

}
