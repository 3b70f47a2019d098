//! Why there is no schema.

use vstd::prelude::*;
use vstd::string::*;

verus! {

/// Why there is no schema for a resource.
#[derive(Debug, PartialEq, Eq)]
pub enum SchemaError {
    /// The list of OpenAPI v3 specs has no paths.
    NoPaths,
    /// There is no OpenAPI v3 spec for this group and version.
    NoSpec(String),
    /// The list of OpenAPI v3 specs does not say where one is.
    NoUrl,
    /// An OpenAPI v3 spec has no list of schemas.
    NoSchemas,
    /// An OpenAPI v3 spec has no components.
    NoComponents,
    /// An OpenAPI v2 spec has no definitions.
    NoDefinitions,
    /// No definition is one of this kind.
    NoKey { group: String, version: String, kind: String },
    /// There is no definition under this key.
    NotFound(String),
    /// The definition under this key refers to one that is not there.
    Unresolved(String),
    /// A spec is no JSON value: some text of a number in it is none.
    NotJson,
    /// A spec is no OpenAPI v3 document, for the reason given.
    Unparsed(String),
    /// A request could not be made or was not answered, for the reason given.
    Request(String),
}

/// Why there is no schema for a resource.
pub enum SchemaErrorView {
    NoPaths,
    NoSpec(Seq<char>),
    NoUrl,
    NoSchemas,
    NoComponents,
    NoDefinitions,
    NoKey { group: Seq<char>, version: Seq<char>, kind: Seq<char> },
    NotFound(Seq<char>),
    Unresolved(Seq<char>),
    NotJson,
    Unparsed(Seq<char>),
    Request(Seq<char>),
}

/// The error in words.
pub open spec fn schema_error_message(e: SchemaErrorView) -> Seq<char> {
    match e {
        SchemaErrorView::NoPaths => "No paths in OpenAPI v3 discovery"@,
        SchemaErrorView::NoSpec(path) => "No v3 spec for "@ + path,
        SchemaErrorView::NoUrl => "No serverRelativeURL"@,
        SchemaErrorView::NoSchemas => "No components/schemas in v3 spec"@,
        SchemaErrorView::NoComponents => "No components in spec"@,
        SchemaErrorView::NoDefinitions => "No definitions found in OpenAPI v2 spec"@,
        SchemaErrorView::NoKey { group, version, kind } =>
            "Could not find OpenAPI definition for "@ + group + "/"@ + version + " kind="@ + kind,
        SchemaErrorView::NotFound(key) => "Definition not found: "@ + key,
        SchemaErrorView::Unresolved(key) => "Could not resolve definition: "@ + key,
        SchemaErrorView::NotJson => "Not a JSON value"@,
        SchemaErrorView::Unparsed(text) => text,
        SchemaErrorView::Request(text) => text,
    }
}

impl SchemaError {
    pub open spec fn view(&self) -> SchemaErrorView {
        match *self {
            SchemaError::NoPaths => SchemaErrorView::NoPaths,
            SchemaError::NoSpec(path) => SchemaErrorView::NoSpec(path@),
            SchemaError::NoUrl => SchemaErrorView::NoUrl,
            SchemaError::NoSchemas => SchemaErrorView::NoSchemas,
            SchemaError::NoComponents => SchemaErrorView::NoComponents,
            SchemaError::NoDefinitions => SchemaErrorView::NoDefinitions,
            SchemaError::NoKey { group, version, kind } => SchemaErrorView::NoKey {
                group: group@,
                version: version@,
                kind: kind@,
            },
            SchemaError::NotFound(key) => SchemaErrorView::NotFound(key@),
            SchemaError::Unresolved(key) => SchemaErrorView::Unresolved(key@),
            SchemaError::NotJson => SchemaErrorView::NotJson,
            SchemaError::Unparsed(text) => SchemaErrorView::Unparsed(text@),
            SchemaError::Request(text) => SchemaErrorView::Request(text@),
        }
    }

    /// The error in words.
    pub fn message(&self) -> (r: String)
        ensures
            r@ == schema_error_message(self@),
    {
        match self {
            SchemaError::NoPaths => "No paths in OpenAPI v3 discovery".to_owned(),
            SchemaError::NoSpec(path) => {
                let mut r: String = "No v3 spec for ".to_owned();
                r.append(path.as_str());
                r
            },
            SchemaError::NoUrl => "No serverRelativeURL".to_owned(),
            SchemaError::NoSchemas => "No components/schemas in v3 spec".to_owned(),
            SchemaError::NoComponents => "No components in spec".to_owned(),
            SchemaError::NoDefinitions => "No definitions found in OpenAPI v2 spec".to_owned(),
            SchemaError::NoKey { group, version, kind } => {
                let mut r: String = "Could not find OpenAPI definition for ".to_owned();
                r.append(group.as_str());
                r.append("/");
                r.append(version.as_str());
                r.append(" kind=");
                r.append(kind.as_str());
                r
            },
            SchemaError::NotFound(key) => {
                let mut r: String = "Definition not found: ".to_owned();
                r.append(key.as_str());
                r
            },
            SchemaError::Unresolved(key) => {
                let mut r: String = "Could not resolve definition: ".to_owned();
                r.append(key.as_str());
                r
            },
            SchemaError::NotJson => "Not a JSON value".to_owned(),
            SchemaError::Unparsed(text) => text.clone(),
            SchemaError::Request(text) => text.clone(),
        }
    }
}

}
