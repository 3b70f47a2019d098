//! Which requests lead to the schema of a resource.

use vstd::prelude::*;
use vstd::string::*;

use crate::discovery::{ResolvedResource, ResolvedView};
use crate::json::{
    find_member, lemma_json_view, member, member_names, names_of, text_member, Json, JsonView,
};
use crate::request::{build_request, is_request_for};
use crate::schema::error::{SchemaError, SchemaErrorView};
use crate::schema::field::{ResourceSchema, ResourceSchemaView};
use crate::schema::lookup::{definition_key, find_definition_key, no_key};
use crate::schema::v2::{schema_from_v2, v2_schema};
use crate::schema::v3::{schema_from_v3, v3_schema};

verus! {

/// The address of the list of OpenAPI v3 specs.
pub open spec fn specs_address() -> Seq<char> {
    "/openapi/v3"@
}

/// The address of the OpenAPI v2 spec.
pub open spec fn v2_address() -> Seq<char> {
    "/openapi/v2"@
}

/// The path under which the spec of a group and version is listed.
pub open spec fn gv_path_of(r: ResolvedView) -> Seq<char> {
    if r.group.len() == 0 {
        "api/v1"@
    } else {
        "apis/"@ + r.group + "/"@ + r.version
    }
}

/// The address of the OpenAPI v3 spec for a resource, from the list of specs, or why there is none.
pub open spec fn spec_address(specs: JsonView, r: ResolvedView) -> Result<
    Seq<char>,
    SchemaErrorView,
> {
    match member(specs, "paths"@) {
        Some(JsonView::Object(paths)) => match member(
            JsonView::Object(paths),
            gv_path_of(r),
        ) {
            Some(info) => match text_member(info, "serverRelativeURL"@) {
                Some(url) => Ok(url),
                None => Err(SchemaErrorView::NoUrl),
            },
            None => Err(SchemaErrorView::NoSpec(gv_path_of(r))),
        },
        _ => Err(SchemaErrorView::NoPaths),
    }
}

fn gv_path(resolved: &ResolvedResource) -> (r: String)
    ensures
        r@ == gv_path_of(resolved@),
{
    if resolved.group.as_str().unicode_len() == 0 {
        "api/v1".to_owned()
    } else {
        let mut r: String = "apis/".to_owned();
        r.append(resolved.group.as_str());
        r.append("/");
        r.append(resolved.version.as_str());
        r
    }
}

/// The address of the OpenAPI v3 spec for a resource, from the list of specs.
pub fn spec_url(specs: &Json, resolved: &ResolvedResource) -> (r: Result<String, SchemaError>)
    ensures
        match r {
            Ok(url) => spec_address(specs@, resolved@) == Ok::<Seq<char>, SchemaErrorView>(url@),
            Err(e) => spec_address(specs@, resolved@) == Err::<Seq<char>, SchemaErrorView>(e@),
        },
{
    broadcast use lemma_json_view;

    match specs.get("paths") {
        Some(Json::Object(paths)) => {
            let path: String = gv_path(resolved);
            match find_member(paths, path.as_str()) {
                Some(info) => match info.get_str("serverRelativeURL") {
                    Some(url) => Ok(url.to_owned()),
                    None => Err(SchemaError::NoUrl),
                },
                None => Err(SchemaError::NoSpec(path)),
            }
        },
        _ => Err(SchemaError::NoPaths),
    }
}

/// The definition of a resource in an OpenAPI v3 spec as it stands there, or why there is none.
pub open spec fn raw_definition(spec_json: JsonView, r: ResolvedView) -> Result<
    JsonView,
    SchemaErrorView,
> {
    let schemas = match member(spec_json, "components"@) {
        Some(components) => member(components, "schemas"@),
        None => None,
    };
    match schemas {
        Some(JsonView::Object(members)) => match definition_key(
            member_names(JsonView::Object(members)),
            r,
        ) {
            Some(key) => match member(JsonView::Object(members), key) {
                Some(definition) => Ok(definition),
                None => Err(SchemaErrorView::NotFound(key)),
            },
            None => Err(no_key(r)),
        },
        _ => Err(SchemaErrorView::NoSchemas),
    }
}

/// The definition of a resource in an OpenAPI v3 spec as it stands there.
pub fn raw_schema(spec_json: &Json, resolved: &ResolvedResource) -> (r: Result<Json, SchemaError>)
    ensures
        match r {
            Ok(j) => raw_definition(spec_json@, resolved@) == Ok::<JsonView, SchemaErrorView>(j@),
            Err(e) => raw_definition(spec_json@, resolved@) == Err::<JsonView, SchemaErrorView>(
                e@,
            ),
        },
{
    broadcast use lemma_json_view;

    let schemas: Option<&Json> = match spec_json.get("components") {
        Some(components) => components.get("schemas"),
        None => None,
    };
    match schemas {
        Some(j) => match j {
            Json::Object(members) => {
                let key: String = match find_definition_key(names_of(j).as_slice(), resolved) {
                    Ok(key) => key,
                    Err(e) => {
                        return Err(e);
                    },
                };
                match find_member(members, key.as_str()) {
                    Some(definition) => Ok(definition.copy()),
                    None => Err(SchemaError::NotFound(key)),
                }
            },
            _ => Err(SchemaError::NoSchemas),
        },
        None => Err(SchemaError::NoSchemas),
    }
}

/// The fetching of a schema, as far as it has come.
#[derive(Debug, PartialEq, Eq)]
pub enum Fetch {
    /// The list of OpenAPI v3 specs is wanted.
    Specs,
    /// The OpenAPI v3 spec at this address is wanted.
    Spec(String),
    /// The OpenAPI v2 spec is wanted.
    V2,
    /// Here is the schema.
    Done(ResourceSchema),
    /// There is no schema.
    Failed(SchemaError),
}

/// The fetching of a schema, as far as it has come.
pub enum FetchView {
    Specs,
    Spec(Seq<char>),
    V2,
    Done(ResourceSchemaView),
    Failed(SchemaErrorView),
}

/// What came back for a request: a JSON value, or why there is none.
pub type Response = Result<Json, String>;

/// What came back for a request.
pub open spec fn response_view(response: Response) -> Result<JsonView, Seq<char>> {
    match response {
        Ok(j) => Ok(j@),
        Err(text) => Err(text@),
    }
}

/// The address of what is wanted next.
pub open spec fn wanted_address(f: FetchView) -> Option<Seq<char>> {
    match f {
        FetchView::Specs => Some(specs_address()),
        FetchView::Spec(url) => Some(url),
        FetchView::V2 => Some(v2_address()),
        _ => None,
    }
}

/// How the fetching goes on when something has come back: whatever goes wrong with v3, v2 is tried.
pub open spec fn goes_on(
    f: FetchView,
    r: ResolvedView,
    response: Result<JsonView, Seq<char>>,
) -> FetchView {
    match f {
        FetchView::Specs => match response {
            Ok(j) => match spec_address(j, r) {
                Ok(url) => FetchView::Spec(url),
                Err(_) => FetchView::V2,
            },
            Err(_) => FetchView::V2,
        },
        FetchView::Spec(_) => match response {
            Ok(j) => match v3_schema(j, r) {
                Ok(schema) => FetchView::Done(schema),
                Err(_) => FetchView::V2,
            },
            Err(_) => FetchView::V2,
        },
        FetchView::V2 => match response {
            Ok(j) => match v2_schema(j, r) {
                Ok(schema) => FetchView::Done(schema),
                Err(e) => FetchView::Failed(e),
            },
            Err(text) => FetchView::Failed(SchemaErrorView::Request(text)),
        },
        _ => f,
    }
}

impl Fetch {
    pub open spec fn view(&self) -> FetchView {
        match *self {
            Fetch::Specs => FetchView::Specs,
            Fetch::Spec(url) => FetchView::Spec(url@),
            Fetch::V2 => FetchView::V2,
            Fetch::Done(schema) => FetchView::Done(schema@),
            Fetch::Failed(e) => FetchView::Failed(e@),
        }
    }

    /// The request for what is wanted next, if anything is, or why it cannot be made.
    pub fn request(&self) -> (r: Option<Result<http::Request<Vec<u8>>, String>>)
        ensures
            is_request_for(wanted_address(self@), r),
    {
        match self {
            Fetch::Specs => Some(build_request("/openapi/v3")),
            Fetch::Spec(url) => Some(build_request(url.as_str())),
            Fetch::V2 => Some(build_request("/openapi/v2")),
            Fetch::Done(_) => None,
            Fetch::Failed(_) => None,
        }
    }
}

/// Fetch the schema for a resolved resource, one response after the other. Tries OpenAPI v3 first,
/// falls back to v2. It begins with the list of OpenAPI v3 specs. A request that cannot be made or
/// is not answered counts as a response too.
pub fn fetch_schema(fetch: Fetch, resolved: &ResolvedResource, response: &Response) -> (r: Fetch)
    ensures
        r@ == goes_on(fetch@, resolved@, response_view(*response)),
{
    match fetch {
        Fetch::Specs => match response {
            Ok(j) => match spec_url(j, resolved) {
                Ok(url) => Fetch::Spec(url),
                Err(_) => Fetch::V2,
            },
            Err(_) => Fetch::V2,
        },
        Fetch::Spec(_) => match response {
            Ok(j) => match schema_from_v3(j, resolved) {
                Ok(schema) => Fetch::Done(schema),
                Err(_) => Fetch::V2,
            },
            Err(_) => Fetch::V2,
        },
        Fetch::V2 => match response {
            Ok(j) => match schema_from_v2(j, resolved) {
                Ok(schema) => Fetch::Done(schema),
                Err(e) => Fetch::Failed(e),
            },
            Err(text) => Fetch::Failed(SchemaError::Request(text.clone())),
        },
        _ => fetch,
    }
}

/// The fetching of the definition of a resource as it stands in its spec, as far as it has come.
#[derive(Debug, PartialEq, Eq)]
pub enum RawFetch {
    /// The list of OpenAPI v3 specs is wanted.
    Specs,
    /// The OpenAPI v3 spec at this address is wanted.
    Spec(String),
    /// Here is the definition.
    Done(Json),
    /// There is no definition.
    Failed(SchemaError),
}

/// The fetching of the definition of a resource, as far as it has come.
pub enum RawFetchView {
    Specs,
    Spec(Seq<char>),
    Done(JsonView),
    Failed(SchemaErrorView),
}

/// The address of what is wanted next.
pub open spec fn wanted_raw_address(f: RawFetchView) -> Option<Seq<char>> {
    match f {
        RawFetchView::Specs => Some(specs_address()),
        RawFetchView::Spec(url) => Some(url),
        _ => None,
    }
}

/// How the fetching goes on when something has come back.
pub open spec fn raw_goes_on(
    f: RawFetchView,
    r: ResolvedView,
    response: Result<JsonView, Seq<char>>,
) -> RawFetchView {
    match f {
        RawFetchView::Specs => match response {
            Ok(j) => match spec_address(j, r) {
                Ok(url) => RawFetchView::Spec(url),
                Err(e) => RawFetchView::Failed(e),
            },
            Err(text) => RawFetchView::Failed(SchemaErrorView::Request(text)),
        },
        RawFetchView::Spec(_) => match response {
            Ok(j) => match raw_definition(j, r) {
                Ok(definition) => RawFetchView::Done(definition),
                Err(e) => RawFetchView::Failed(e),
            },
            Err(text) => RawFetchView::Failed(SchemaErrorView::Request(text)),
        },
        _ => f,
    }
}

impl RawFetch {
    pub open spec fn view(&self) -> RawFetchView {
        match *self {
            RawFetch::Specs => RawFetchView::Specs,
            RawFetch::Spec(url) => RawFetchView::Spec(url@),
            RawFetch::Done(j) => RawFetchView::Done(j@),
            RawFetch::Failed(e) => RawFetchView::Failed(e@),
        }
    }

    /// The request for what is wanted next, if anything is, or why it cannot be made.
    pub fn request(&self) -> (r: Option<Result<http::Request<Vec<u8>>, String>>)
        ensures
            is_request_for(wanted_raw_address(self@), r),
    {
        match self {
            RawFetch::Specs => Some(build_request("/openapi/v3")),
            RawFetch::Spec(url) => Some(build_request(url.as_str())),
            RawFetch::Done(_) => None,
            RawFetch::Failed(_) => None,
        }
    }
}

/// Fetch the raw OpenAPI schema definition for a resource (for debugging), one response after the
/// other. It begins with the list of OpenAPI v3 specs.
pub fn fetch_raw_schema(fetch: RawFetch, resolved: &ResolvedResource, response: &Response) -> (r:
    RawFetch)
    ensures
        r@ == raw_goes_on(fetch@, resolved@, response_view(*response)),
{
    match fetch {
        RawFetch::Specs => match response {
            Ok(j) => match spec_url(j, resolved) {
                Ok(url) => RawFetch::Spec(url),
                Err(e) => RawFetch::Failed(e),
            },
            Err(text) => RawFetch::Failed(SchemaError::Request(text.clone())),
        },
        RawFetch::Spec(_) => match response {
            Ok(j) => match raw_schema(j, resolved) {
                Ok(definition) => RawFetch::Done(definition),
                Err(e) => RawFetch::Failed(e),
            },
            Err(text) => RawFetch::Failed(SchemaError::Request(text.clone())),
        },
        _ => fetch,
    }
}

/// What a server answers for an address.
pub type Server = spec_fn(Seq<char>) -> Result<JsonView, Seq<char>>;

/// Where the fetching has come when everything that is wanted has been asked for.
pub open spec fn fetched(f: FetchView, r: ResolvedView, server: Server) -> FetchView
    decreases steps_left(f),
{
    match wanted_address(f) {
        Some(address) => fetched(goes_on(f, r, server(address)), r, server),
        None => f,
    }
}

/// How many requests there can still be.
pub open spec fn steps_left(f: FetchView) -> nat {
    match f {
        FetchView::Specs => 3,
        FetchView::Spec(_) => 2,
        FetchView::V2 => 1,
        _ => 0,
    }
}

/// The schema by way of OpenAPI v3.
pub open spec fn by_v3(r: ResolvedView, server: Server) -> Option<ResourceSchemaView> {
    match server(specs_address()) {
        Ok(specs) => match spec_address(specs, r) {
            Ok(url) => match server(url) {
                Ok(j) => match v3_schema(j, r) {
                    Ok(schema) => Some(schema),
                    Err(_) => None,
                },
                Err(_) => None,
            },
            Err(_) => None,
        },
        Err(_) => None,
    }
}

/// OpenAPI v3 is tried first: where it leads to a schema, that is the schema. Where it does not, for
/// whatever reason, what OpenAPI v2 says counts, and so do its errors.
pub proof fn lemma_v3_then_v2(r: ResolvedView, server: Server)
    ensures
        fetched(FetchView::Specs, r, server) == (match by_v3(r, server) {
            Some(schema) => FetchView::Done(schema),
            None => match server(v2_address()) {
                Ok(j) => match v2_schema(j, r) {
                    Ok(schema) => FetchView::Done(schema),
                    Err(e) => FetchView::Failed(e),
                },
                Err(text) => FetchView::Failed(SchemaErrorView::Request(text)),
            },
        }),
{
    reveal_with_fuel(fetched, 4);
}

/// Where the fetching of a raw definition has come when everything that is wanted has been asked
/// for.
pub open spec fn raw_fetched(f: RawFetchView, r: ResolvedView, server: Server) -> RawFetchView
    decreases raw_steps_left(f),
{
    match wanted_raw_address(f) {
        Some(address) => raw_fetched(raw_goes_on(f, r, server(address)), r, server),
        None => f,
    }
}

/// How many requests for a raw definition there can still be.
pub open spec fn raw_steps_left(f: RawFetchView) -> nat {
    match f {
        RawFetchView::Specs => 2,
        RawFetchView::Spec(_) => 1,
        _ => 0,
    }
}

/// A raw definition comes from OpenAPI v3 alone: from the spec that is listed for the group and
/// version of the resource. The first thing that goes wrong is the error.
pub proof fn lemma_raw_from_v3(r: ResolvedView, server: Server)
    ensures
        raw_fetched(RawFetchView::Specs, r, server) == (match server(specs_address()) {
            Err(text) => RawFetchView::Failed(SchemaErrorView::Request(text)),
            Ok(specs) => match spec_address(specs, r) {
                Err(e) => RawFetchView::Failed(e),
                Ok(url) => match server(url) {
                    Err(text) => RawFetchView::Failed(SchemaErrorView::Request(text)),
                    Ok(j) => match raw_definition(j, r) {
                        Err(e) => RawFetchView::Failed(e),
                        Ok(definition) => RawFetchView::Done(definition),
                    },
                },
            },
        }),
{
    reveal_with_fuel(raw_fetched, 3);
}

}
