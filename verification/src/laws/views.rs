//! What the specifications see of a value is what it holds: part by part, in order, with nothing left
//! out.

use vstd::prelude::*;

use crate::cli::{ArgValue, ArgValueView, Args, CliError, ClientSource, ClientSourceView};
use crate::discovery::{
    ApiGroupEntry, ApiResourceEntry, DiscoveredResource, Outcome, OutcomeView, Reply, ReplyView,
    ResolveError, ResolveErrorView, ResolvedResource,
};
use crate::generate::{Generated, GeneratedView};
use crate::interactive::{
    Answer, AnswerView, Notice, NoticeView, Progress, ProgressView, Question, QuestionView, Reading,
    ReadingView,
};
use crate::json::{lemma_json_view, Json, JsonNumber, JsonView, NumberView};
use crate::schema::error::{SchemaError, SchemaErrorView};
use crate::schema::fetch::{response_view, Fetch, FetchView, RawFetch, RawFetchView, Response};
use crate::schema::field::{
    lemma_field_type_view, lemma_field_view, FieldSchema, FieldType, FieldTypeView, ResourceSchema,
};
use crate::yaml::{lemma_node_view, NodeView, YamlNode};

verus! {

/// The characters of a text that may be none.
pub open spec fn characters(text: Option<String>) -> Option<Seq<char>> {
    match text {
        Some(t) => Some(t@),
        None => None,
    }
}

/// A JSON value.
pub proof fn lemma_json_seen(j: Json, n: JsonNumber)
    ensures
        match n {
            JsonNumber::Unsigned(u) => n@ == NumberView::Int(u as int),
            JsonNumber::Signed(i) => n@ == NumberView::Int(i as int),
            JsonNumber::Float(t) => n@ == NumberView::Float(t@),
        },
        match j {
            Json::Null => j@ == JsonView::Null,
            Json::Bool(b) => j@ == JsonView::Bool(b),
            Json::Number(n) => j@ == JsonView::Number(n@),
            Json::String(s) => j@ == JsonView::String(s@),
            Json::Array(items) => match j@ {
                JsonView::Array(seen) => seen.len() == items@.len() && forall|i: int|
                    0 <= i < seen.len() ==> #[trigger] seen[i] == items@[i]@,
                _ => false,
            },
            Json::Object(members) => match j@ {
                JsonView::Object(seen) => seen.len() == members@.len() && forall|i: int|
                    0 <= i < seen.len() ==> #[trigger] seen[i] == (
                        members@[i].0@,
                        members@[i].1@,
                    ),
                _ => false,
            },
        },
{
    lemma_json_view(j);
}

/// A field.
pub proof fn lemma_field_seen(f: FieldSchema)
    ensures
        f@.name == f.name@,
        f@.description == characters(f.description),
        f@.field_type == f.field_type@,
        f@.required == f.required,
        match f.default {
            Some(v) => f@.default == Some(v@),
            None => f@.default is None,
        },
        match f.enum_values {
            Some(values) => f@.enum_values matches Some(seen) && seen.len() == values@.len()
                && forall|i: int| 0 <= i < seen.len() ==> #[trigger] seen[i] == values@[i]@,
            None => f@.enum_values is None,
        },
        match f.variants {
            Some(fields) => f@.variants matches Some(seen) && seen.len() == fields@.len()
                && forall|i: int| 0 <= i < seen.len() ==> #[trigger] seen[i] == fields@[i]@,
            None => f@.variants is None,
        },
        f@.format == characters(f.format),
{
    lemma_field_view(f);
}

/// The type of a field, and the schema of a resource.
pub proof fn lemma_type_seen(t: FieldType, schema: ResourceSchema)
    ensures
        match t {
            FieldType::String => t@ == FieldTypeView::String,
            FieldType::Integer => t@ == FieldTypeView::Integer,
            FieldType::Number => t@ == FieldTypeView::Number,
            FieldType::Boolean => t@ == FieldTypeView::Boolean,
            FieldType::Array(item) => t@ == FieldTypeView::Array(Box::new(item@)),
            FieldType::Object(fields) => match t@ {
                FieldTypeView::Object(seen) => seen.len() == fields@.len() && forall|i: int|
                    0 <= i < seen.len() ==> #[trigger] seen[i] == fields@[i]@,
                _ => false,
            },
            FieldType::Mapping(Some(value)) => t@ == FieldTypeView::Mapping(
                Some(Box::new(value@)),
            ),
            FieldType::Mapping(None) => t@ == FieldTypeView::Mapping(None),
            FieldType::Any => t@ == FieldTypeView::Any,
        },
        schema@.description == characters(schema.description),
        schema@.fields.len() == schema.fields@.len(),
        forall|i: int|
            0 <= i < schema.fields@.len() ==> #[trigger] schema@.fields[i] == schema.fields@[i]@,
{
    lemma_field_type_view(t);
}

/// A node of a document.
pub proof fn lemma_node_seen(n: YamlNode)
    ensures
        match n {
            YamlNode::Scalar(s) => n@ == NodeView::Scalar(s@),
            YamlNode::Mapping => n@ == NodeView::Mapping,
            YamlNode::Array(items) => match n@ {
                NodeView::Array(seen) => seen.len() == items@.len() && forall|i: int|
                    0 <= i < seen.len() ==> #[trigger] seen[i] == items@[i]@,
                _ => false,
            },
            YamlNode::Object(entries) => match n@ {
                NodeView::Object(seen) => seen.len() == entries@.len() && forall|i: int|
                    0 <= i < seen.len() ==> #[trigger] seen[i] == (
                        entries@[i].0@,
                        entries@[i].1@,
                        characters(entries@[i].2),
                    ),
                _ => false,
            },
        },
{
    lemma_node_view(n);
}

/// A resource of a cluster, a group of them, and a type that an input resolves to.
pub proof fn lemma_resource_seen(
    e: ApiResourceEntry,
    d: DiscoveredResource,
    g: ApiGroupEntry,
    r: ResolvedResource,
)
    ensures
        e@.name == e.name@ && e@.singular_name == e.singular_name@ && e@.kind == e.kind@,
        e@.namespaced == e.namespaced && e@.short_names.len() == e.short_names@.len(),
        forall|i: int|
            0 <= i < e.short_names@.len() ==> #[trigger] e@.short_names[i] == e.short_names@[i]@,
        d@.entry == d.entry@ && d@.group == d.group@ && d@.version == d.version@,
        g@.name == g.name@ && g@.versions.len() == g.versions@.len(),
        forall|i: int|
            0 <= i < g.versions@.len() ==> (#[trigger] g@.versions[i]).group_version
                == g.versions@[i].group_version@ && g@.versions[i].version
                == g.versions@[i].version@,
        r@.kind == r.api_resource.kind@ && r@.plural == r.api_resource.plural@,
        r@.namespaced == r.namespaced && r@.group == r.group@ && r@.version == r.version@,
{
}

/// What the API server replies, and what follows from it.
pub proof fn lemma_reply_seen(reply: Reply, outcome: Outcome, e: ResolveError)
    ensures
        match reply {
            Reply::Resources(list) => match reply@ {
                ReplyView::Resources(seen) => seen.len() == list.resources@.len() && forall|i: int|
                    0 <= i < seen.len() ==> #[trigger] seen[i] == list.resources@[i]@,
                _ => false,
            },
            Reply::Groups(list) => match reply@ {
                ReplyView::Groups(seen) => seen.len() == list.groups@.len() && forall|i: int|
                    0 <= i < seen.len() ==> #[trigger] seen[i] == list.groups@[i]@,
                _ => false,
            },
            Reply::Failed(error) => reply@ == ReplyView::Failed(error@),
            Reply::Unmade(error) => reply@ == ReplyView::Unmade(error@),
        },
        match outcome {
            Outcome::Going => outcome@ == OutcomeView::Going,
            Outcome::Warned(text) => outcome@ == OutcomeView::Warned(text@),
            Outcome::Aborted(text) => outcome@ == OutcomeView::Aborted(text@),
            Outcome::Misplaced => outcome@ == OutcomeView::Misplaced,
        },
        match e {
            ResolveError::Unknown { input, discovered } => e@ == (ResolveErrorView::Unknown {
                input: input@,
                discovered: discovered as nat,
            }),
            ResolveError::Similar { input, suggestions } => match e@ {
                ResolveErrorView::Similar { input: seen, suggestions: texts } => seen == input@
                    && texts.len() == suggestions@.len() && forall|i: int|
                    0 <= i < texts.len() ==> #[trigger] texts[i] == suggestions@[i]@,
                _ => false,
            },
        },
{
}

/// What is shown and asked.
pub proof fn lemma_question_seen(n: Notice, q: Question)
    ensures
        match n {
            Notice::Title(t) => n@ == NoticeView::Title(t@),
            Notice::Section(t) => n@ == NoticeView::Section(t@),
            Notice::Hint(t) => n@ == NoticeView::Hint(t@),
            Notice::Remark(t) => n@ == NoticeView::Remark(t@),
            Notice::Blank => n@ == NoticeView::Blank,
        },
        match q {
            Question::Select { prompt, options } => match q@ {
                QuestionView::Select { prompt: p, options: seen } => p == prompt@ && seen.len()
                    == options@.len() && forall|i: int|
                    0 <= i < seen.len() ==> #[trigger] seen[i] == options@[i]@,
                _ => false,
            },
            Question::Text { prompt, default, allow_empty } => q@ == (QuestionView::Text {
                prompt: prompt@,
                default: characters(default),
                allow_empty,
            }),
            Question::Number { prompt, default, allow_empty } => q@ == (QuestionView::Number {
                prompt: prompt@,
                default: characters(default),
                allow_empty,
            }),
            Question::Confirm { prompt, preset } => q@ == (QuestionView::Confirm {
                prompt: prompt@,
                preset,
            }),
        },
{
}

/// What is answered.
pub proof fn lemma_answer_seen(a: Answer, r: Reading)
    ensures
        match a {
            Answer::Selected(i) => a@ == AnswerView::Selected(i),
            Answer::Text(t) => a@ == AnswerView::Text(t@),
            Answer::Number { text, reading } => a@ == (AnswerView::Number {
                text: text@,
                reading: reading@,
            }),
            Answer::Confirmed(b) => a@ == AnswerView::Confirmed(b),
        },
        match r {
            Reading::Invalid => r@ == ReadingView::Invalid,
            Reading::NotFinite => r@ == ReadingView::NotFinite,
            Reading::Finite(n) => r@ == ReadingView::Finite(n@),
        },
{
}

/// How far the dialogue and the document have come.
pub proof fn lemma_progress_seen(p: Progress, g: Generated)
    ensures
        match p {
            Progress::Ask(q) => p@ == ProgressView::Ask(q@),
            Progress::Misfit => p@ == ProgressView::Misfit,
            Progress::Done(values) => match p@ {
                ProgressView::Done(seen) => seen.len() == values@.len() && forall|i: int|
                    0 <= i < seen.len() ==> #[trigger] seen[i] == (values@[i].0@, values@[i].1@),
                _ => false,
            },
        },
        match g {
            Generated::Ask(q) => g@ == GeneratedView::Ask(q@),
            Generated::Yaml(text) => g@ == GeneratedView::Yaml(text@),
            Generated::Misfit => g@ == GeneratedView::Misfit,
        },
{
}

/// What the command line says, and what it leads to.
pub proof fn lemma_arguments_seen(a: Args, v: ArgValue, c: ClientSource, e: CliError)
    ensures
        a@.resource == characters(a.resource) && a@.name == characters(a.name),
        a@.namespace == characters(a.namespace) && a@.context == characters(a.context),
        a@.kubeconfig == a.kubeconfig && a@.minimal == a.minimal && a@.full == a.full,
        a@.interactive == a.interactive && a@.no_comments == a.no_comments,
        a@.dump_schema == a.dump_schema,
        match v {
            ArgValue::Text(t) => v@ == ArgValueView::Text(characters(t)),
            ArgValue::Path(p) => v@ == ArgValueView::Path(p),
            ArgValue::Flag(b) => v@ == ArgValueView::Flag(b),
        },
        match c {
            ClientSource::Inferred => c@ == ClientSourceView::Inferred,
            ClientSource::File { path, context } => c@ == (ClientSourceView::File {
                path: *path,
                context: characters(context),
            }),
            ClientSource::Usual { context } => c@ == (ClientSourceView::Usual {
                context: characters(context),
            }),
        },
        e@.message == e.message@ && e@.code == e.code && e@.is_error == e.is_error,
{
}

/// How far the fetching of a schema has come, what came back, and why there is no schema.
pub proof fn lemma_fetching_seen(f: Fetch, raw: RawFetch, response: Response, e: SchemaError)
    ensures
        match f {
            Fetch::Specs => f@ == FetchView::Specs,
            Fetch::Spec(url) => f@ == FetchView::Spec(url@),
            Fetch::V2 => f@ == FetchView::V2,
            Fetch::Done(schema) => f@ == FetchView::Done(schema@),
            Fetch::Failed(e) => f@ == FetchView::Failed(e@),
        },
        match raw {
            RawFetch::Specs => raw@ == RawFetchView::Specs,
            RawFetch::Spec(url) => raw@ == RawFetchView::Spec(url@),
            RawFetch::Done(j) => raw@ == RawFetchView::Done(j@),
            RawFetch::Failed(e) => raw@ == RawFetchView::Failed(e@),
        },
        match response {
            Ok(j) => response_view(response) == Ok::<JsonView, Seq<char>>(j@),
            Err(text) => response_view(response) == Err::<JsonView, Seq<char>>(text@),
        },
        match e {
            SchemaError::NoPaths => e@ == SchemaErrorView::NoPaths,
            SchemaError::NoSpec(path) => e@ == SchemaErrorView::NoSpec(path@),
            SchemaError::NoUrl => e@ == SchemaErrorView::NoUrl,
            SchemaError::NoSchemas => e@ == SchemaErrorView::NoSchemas,
            SchemaError::NoComponents => e@ == SchemaErrorView::NoComponents,
            SchemaError::NoDefinitions => e@ == SchemaErrorView::NoDefinitions,
            SchemaError::NoKey { group, version, kind } => e@ == (SchemaErrorView::NoKey {
                group: group@,
                version: version@,
                kind: kind@,
            }),
            SchemaError::NotFound(key) => e@ == SchemaErrorView::NotFound(key@),
            SchemaError::Unresolved(key) => e@ == SchemaErrorView::Unresolved(key@),
            SchemaError::NotJson => e@ == SchemaErrorView::NotJson,
            SchemaError::Unparsed(text) => e@ == SchemaErrorView::Unparsed(text@),
            SchemaError::Request(text) => e@ == SchemaErrorView::Request(text@),
        },
{
}

}
