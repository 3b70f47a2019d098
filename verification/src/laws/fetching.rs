//! Which requests lead to a schema, and which definition is taken.

use vstd::prelude::*;

use crate::discovery::ResolvedView;
use crate::json::{lookup, member, text_member, JsonView, Member};
use crate::schema::error::{schema_error_message, SchemaErrorView};
use crate::schema::fetch::{
    fetched, goes_on, lemma_raw_from_v3, lemma_v3_then_v2, raw_definition, raw_fetched,
    spec_address, wanted_address, wanted_raw_address, FetchView, RawFetchView, Server,
};
use crate::schema::lookup::{definition_key, first_fit, fits, Strategy};
use crate::schema::v2::v2_schema;
use crate::schema::v3::v3_schema;
use crate::text::{lowercase, occurs};

verus! {

/// How well a key fits a resource, the least number being the best: it ends with the group, the
/// version and the kind, or with the version and the kind, each in any case and as a whole; it ends
/// with the version and the kind as they are; it ends with the kind and has the group in it; it
/// ends with the kind; or it does not fit.
pub open spec fn rank(key: Seq<char>, r: ResolvedView) -> int {
    let lower = lowercase(key);
    let tail = "."@ + lowercase(r.version) + "."@ + lowercase(r.kind);
    if r.group.len() > 0 && ("."@ + lowercase(r.group) + tail).is_suffix_of("."@ + lower) {
        0
    } else if tail.is_suffix_of(lower) {
        1
    } else if (r.version + "."@ + r.kind).is_suffix_of(key) {
        2
    } else if r.kind.is_suffix_of(key) && (r.group.len() == 0 || occurs(
        lower,
        lowercase(r.group),
    )) {
        3
    } else if r.kind.is_suffix_of(key) {
        4
    } else {
        5
    }
}

proof fn lemma_rank(key: Seq<char>, r: ResolvedView)
    ensures
        rank(key, r) == (if fits(Strategy::InGroup, key, r) {
            0int
        } else if fits(Strategy::Qualified, key, r) {
            1
        } else if fits(Strategy::Versioned, key, r) {
            2
        } else if fits(Strategy::Grouped, key, r) {
            3
        } else if fits(Strategy::Kind, key, r) {
            4
        } else {
            5
        }),
{
    let tail = "."@ + lowercase(r.version) + "."@ + lowercase(r.kind);
    assert("."@ + lowercase(r.group) + tail =~= "."@ + lowercase(r.group) + "."@ + lowercase(
        r.version,
    ) + "."@ + lowercase(r.kind));
}

proof fn lemma_first_fit_at(strategy: Strategy, keys: Seq<Seq<char>>, r: ResolvedView) -> (i: int)
    ensures
        match first_fit(strategy, keys, r) {
            Some(key) => {
                &&& 0 <= i < keys.len()
                &&& keys[i] == key
                &&& fits(strategy, key, r)
                &&& forall|j: int| 0 <= j < i ==> !fits(strategy, #[trigger] keys[j], r)
            },
            None => forall|j: int| 0 <= j < keys.len() ==> !fits(strategy, #[trigger] keys[j], r),
        },
    decreases keys.len(),
{
    if keys.len() == 0 || fits(strategy, keys[0], r) {
        0
    } else {
        let rest = keys.drop_first();
        let i = lemma_first_fit_at(strategy, rest, r);
        let end = if first_fit(strategy, rest, r) is Some {
            i + 1
        } else {
            keys.len() as int
        };
        assert forall|j: int| 0 <= j < end implies !fits(strategy, #[trigger] keys[j], r) by {
            if j > 0 {
                assert(keys[j] == rest[j - 1]);
            }
        }
        i + 1
    }
}

/// The definition of a resource is the first of those whose keys fit it best, and there is none if and
/// only if no key fits.
pub proof fn lemma_best_key_taken(keys: Seq<Seq<char>>, r: ResolvedView) -> (at: int)
    ensures
        match definition_key(keys, r) {
            Some(key) => {
                &&& 0 <= at < keys.len()
                &&& keys[at] == key
                &&& rank(key, r) < 5
                &&& forall|j: int| 0 <= j < keys.len() ==> rank(key, r) <= rank(#[trigger] keys[j], r)
                &&& forall|j: int| 0 <= j < at ==> rank(key, r) < rank(#[trigger] keys[j], r)
            },
            None => forall|j: int| 0 <= j < keys.len() ==> rank(#[trigger] keys[j], r) == 5,
        },
{
    let a = lemma_first_fit_at(Strategy::InGroup, keys, r);
    let b = lemma_first_fit_at(Strategy::Qualified, keys, r);
    let c = lemma_first_fit_at(Strategy::Versioned, keys, r);
    let d = lemma_first_fit_at(Strategy::Grouped, keys, r);
    let e = lemma_first_fit_at(Strategy::Kind, keys, r);
    assert forall|j: int| 0 <= j < keys.len() implies rank(#[trigger] keys[j], r) == (if fits(
        Strategy::InGroup,
        keys[j],
        r,
    ) {
        0int
    } else if fits(Strategy::Qualified, keys[j], r) {
        1
    } else if fits(Strategy::Versioned, keys[j], r) {
        2
    } else if fits(Strategy::Grouped, keys[j], r) {
        3
    } else if fits(Strategy::Kind, keys[j], r) {
        4
    } else {
        5
    }) by {
        lemma_rank(keys[j], r);
    }
    if first_fit(Strategy::InGroup, keys, r) is Some {
        a
    } else if first_fit(Strategy::Qualified, keys, r) is Some {
        b
    } else if first_fit(Strategy::Versioned, keys, r) is Some {
        c
    } else if first_fit(Strategy::Grouped, keys, r) is Some {
        d
    } else {
        e
    }
}

/// The spec of a resource is the one that is listed for its group and version, the core API having
/// no group. What is missing in the list is the error.
pub proof fn lemma_listed_spec(specs: JsonView, r: ResolvedView)
    ensures
        ({
            let path = if r.group.len() == 0 {
                "api/v1"@
            } else {
                "apis/"@ + r.group + "/"@ + r.version
            };
            spec_address(specs, r) == (match member(specs, "paths"@) {
                Some(JsonView::Object(paths)) => match lookup(paths, path) {
                    Some(info) => match text_member(info, "serverRelativeURL"@) {
                        Some(url) => Ok(url),
                        None => Err(SchemaErrorView::NoUrl),
                    },
                    None => Err(SchemaErrorView::NoSpec(path)),
                },
                _ => Err(SchemaErrorView::NoPaths),
            })
        }),
{
}

/// Where a server leads by way of OpenAPI v3, if it leads to the spec of the resource.
pub open spec fn spec_of(r: ResolvedView, server: Server) -> Option<JsonView> {
    match server("/openapi/v3"@) {
        Ok(specs) => match spec_address(specs, r) {
            Ok(url) => match server(url) {
                Ok(spec) => Some(spec),
                Err(_) => None,
            },
            Err(_) => None,
        },
        Err(_) => None,
    }
}

/// The schema of a resource is the one that its OpenAPI v3 spec describes, and only where there is no
/// such spec or it describes none, the one that the OpenAPI v2 spec describes.
pub proof fn lemma_v3_before_v2(r: ResolvedView, server: Server)
    ensures
        ({
            let end = fetched(FetchView::Specs, r, server);
            let by_v2 = match server("/openapi/v2"@) {
                Ok(spec) => match v2_schema(spec, r) {
                    Ok(schema) => FetchView::Done(schema),
                    Err(e) => FetchView::Failed(e),
                },
                Err(text) => FetchView::Failed(SchemaErrorView::Request(text)),
            };
            match spec_of(r, server) {
                Some(spec) => match v3_schema(spec, r) {
                    Ok(schema) => end == FetchView::Done(schema),
                    Err(_) => end == by_v2,
                },
                None => end == by_v2,
            }
        }),
{
    lemma_v3_then_v2(r, server);
}

/// Each response leads one step further: from the list of specs to the spec of the resource, from
/// there to its schema, and from whatever goes wrong to OpenAPI v2, where what goes wrong is the
/// error. When there is a schema or an error, nothing more is asked for.
pub proof fn lemma_fetching_goes_on(
    r: ResolvedView,
    url: Seq<char>,
    response: Result<JsonView, Seq<char>>,
    f: FetchView,
)
    ensures
        wanted_address(FetchView::Specs) == Some("/openapi/v3"@),
        wanted_address(FetchView::Spec(url)) == Some(url),
        wanted_address(FetchView::V2) == Some("/openapi/v2"@),
        f is Done || f is Failed ==> wanted_address(f) is None && goes_on(f, r, response) == f,
        response matches Ok(j) ==> {
            &&& goes_on(FetchView::Specs, r, response) == (match spec_address(j, r) {
                Ok(next) => FetchView::Spec(next),
                Err(_) => FetchView::V2,
            })
            &&& goes_on(FetchView::Spec(url), r, response) == (match v3_schema(j, r) {
                Ok(schema) => FetchView::Done(schema),
                Err(_) => FetchView::V2,
            })
            &&& goes_on(FetchView::V2, r, response) == (match v2_schema(j, r) {
                Ok(schema) => FetchView::Done(schema),
                Err(e) => FetchView::Failed(e),
            })
        },
        response matches Err(text) ==> {
            &&& goes_on(FetchView::Specs, r, response) == FetchView::V2
            &&& goes_on(FetchView::Spec(url), r, response) == FetchView::V2
            &&& goes_on(FetchView::V2, r, response) == FetchView::Failed(
                SchemaErrorView::Request(text),
            )
        },
{
}

/// The raw definition of a resource is the one that stands under its key among the schemas of its
/// OpenAPI v3 spec, as it stands there.
pub proof fn lemma_raw_definition_as_it_stands(
    spec: JsonView,
    components: JsonView,
    schemas: Seq<Member>,
    r: ResolvedView,
)
    requires
        member(spec, "components"@) == Some(components),
        member(components, "schemas"@) == Some(JsonView::Object(schemas)),
    ensures
        match definition_key(schemas.map_values(|m: Member| m.0), r) {
            Some(key) => lookup(schemas, key) matches Some(definition) ==> raw_definition(spec, r)
                == Ok::<JsonView, SchemaErrorView>(definition),
            None => raw_definition(spec, r) == Err::<JsonView, SchemaErrorView>(
                SchemaErrorView::NoKey { group: r.group, version: r.version, kind: r.kind },
            ),
        },
{
}

/// A spec without schemas has no raw definition.
pub proof fn lemma_no_raw_definition(spec: JsonView, r: ResolvedView)
    requires
        match member(spec, "components"@) {
            Some(components) => !(member(components, "schemas"@) matches Some(JsonView::Object(_))),
            None => true,
        },
    ensures
        raw_definition(spec, r) == Err::<JsonView, SchemaErrorView>(SchemaErrorView::NoSchemas),
{
}

/// A raw definition is fetched from the spec that is listed for the resource, and from nowhere else:
/// what goes wrong is the error.
pub proof fn lemma_raw_fetched(r: ResolvedView, server: Server)
    ensures
        wanted_raw_address(RawFetchView::Specs) == Some("/openapi/v3"@),
        ({
            let end = raw_fetched(RawFetchView::Specs, r, server);
            match server("/openapi/v3"@) {
                Ok(specs) => match spec_address(specs, r) {
                    Ok(url) => match server(url) {
                        Ok(spec) => match raw_definition(spec, r) {
                            Ok(definition) => end == RawFetchView::Done(definition),
                            Err(e) => end == RawFetchView::Failed(e),
                        },
                        Err(text) => end == RawFetchView::Failed(SchemaErrorView::Request(text)),
                    },
                    Err(e) => end == RawFetchView::Failed(e),
                },
                Err(text) => end == RawFetchView::Failed(SchemaErrorView::Request(text)),
            }
        }),
{
    lemma_raw_from_v3(r, server);
}

/// The errors in words.
pub proof fn lemma_errors_in_words(
    text: Seq<char>,
    group: Seq<char>,
    version: Seq<char>,
    kind: Seq<char>,
)
    ensures
        schema_error_message(SchemaErrorView::NoPaths) == "No paths in OpenAPI v3 discovery"@,
        schema_error_message(SchemaErrorView::NoSpec(text)) == "No v3 spec for "@ + text,
        schema_error_message(SchemaErrorView::NoUrl) == "No serverRelativeURL"@,
        schema_error_message(SchemaErrorView::NoSchemas) == "No components/schemas in v3 spec"@,
        schema_error_message(SchemaErrorView::NoComponents) == "No components in spec"@,
        schema_error_message(SchemaErrorView::NoDefinitions)
            == "No definitions found in OpenAPI v2 spec"@,
        schema_error_message(SchemaErrorView::NoKey { group, version, kind })
            == "Could not find OpenAPI definition for "@ + group + "/"@ + version + " kind="@ + kind,
        schema_error_message(SchemaErrorView::NotFound(text)) == "Definition not found: "@ + text,
        schema_error_message(SchemaErrorView::Unresolved(text))
            == "Could not resolve definition: "@ + text,
        schema_error_message(SchemaErrorView::Unparsed(text)) == text,
        schema_error_message(SchemaErrorView::Request(text)) == text,
{
}

}
