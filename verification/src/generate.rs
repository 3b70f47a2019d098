//! YAML for a resource, from the schema of its fields.

use vstd::prelude::*;
use vstd::string::*;

use crate::cli::{Args, ArgsView};
use crate::discovery::{ResolvedResource, ResolvedView};
use crate::interactive::{
    answer_views, dialogue, notice_views, prompt_for_fields, Answer, AnswerView, Notice, NoticeView,
    Progress, ProgressView, Question, QuestionView,
};
use crate::json::{
    find_member, json_views, lemma_json_view, lookup, member_views, Json, JsonNumber, JsonView,
    Member, NumberView,
};
use crate::schema::field::{
    field_ref_views, field_undescribed, field_views, fields_undescribed, lemma_field_type_view,
    lemma_field_view, lemma_type_undescribed, schema_undescribed, type_undescribed, FieldSchema,
    FieldType, FieldTypeView, FieldView, ResourceSchema, ResourceSchemaView,
};
use crate::schema::openapi::{FormatView, KindTree, KnownFormat, Named, SchemaTree, TypeTree};
use crate::schema::v3::{opened_field, text_choices, type_at, IdView};
use crate::text::{
    escape_quotes, find, first_occurrence, joined, lemma_one_line_concat, lemma_one_line_decimal,
    lemma_one_line_quotes, one_line, opt_text, quotes_escaped, same, signed_text, unsigned_text,
};
use crate::value::{compact_json, notation};
use crate::yaml::{
    document_lines, emit_yaml, entries_undescribed, entry_views, items_undescribed,
    lemma_descriptions_suppressed, lemma_node_view, lemma_undescribed, node_views, undescribed,
    Entry, NodeView, YamlNode,
};

verus! {

/// How much of a description a comment holds, in characters.
pub const SENTENCE_SIZE: usize = 120;

/// What stands before the first line break.
pub open spec fn line_of(text: Seq<char>) -> Seq<char> {
    match first_occurrence(text, "\n"@) {
        Some(i) => text.take(i),
        None => text,
    }
}

/// Where the first sentence of a line ends: behind the first full stop that a space follows, or at
/// the end of the line where there is none.
pub open spec fn sentence_end(line: Seq<char>) -> int {
    match first_occurrence(line, ". "@) {
        Some(i) => i + 1,
        None => line.len() as int,
    }
}

/// The first sentence of a description: that of its first line, and no more of it than fits a
/// comment.
pub open spec fn sentence_of(desc: Seq<char>) -> Seq<char> {
    let line = line_of(desc);
    let end = sentence_end(line);
    line.take(if end > SENTENCE_SIZE {
        SENTENCE_SIZE as int
    } else {
        end
    })
}

fn before_break(text: &str) -> (r: &str)
    ensures
        r@ == line_of(text@),
{
    match find(text, "\n") {
        Some(i) => {
            let r: &str = text.substring_char(0, i);
            proof {
                assert(r@ =~= text@.take(i as int));
            }
            r
        },
        None => text,
    }
}

fn sentence_size(line: &str) -> (r: usize)
    ensures
        r == sentence_end(line@),
        r <= line@.len(),
{
    let size: usize = line.unicode_len();
    match find(line, ". ") {
        Some(i) => {
            proof {
                reveal_strlit(". ");
            }
            i + 1
        },
        None => size,
    }
}

/// Extract the first sentence from a description string, capped at 120 chars.
pub fn first_sentence(desc: &str) -> (r: &str)
    ensures
        r@ == sentence_of(desc@),
{
    let line: &str = before_break(desc);
    let size: usize = sentence_size(line);
    let end: usize = if size > SENTENCE_SIZE {
        SENTENCE_SIZE
    } else {
        size
    };
    let r: &str = line.substring_char(0, end);
    proof {
        assert(r@ =~= line@.take(end as int));
    }
    r
}

/// A value as a scalar of YAML: in the notation of JSON, except that the quotes of a text are all
/// that is escaped.
pub open spec fn formatted(value: JsonView) -> Seq<char> {
    match value {
        JsonView::Array(items) if items.len() > 0 => inline_json(value),
        JsonView::Object(members) if members.len() > 0 => inline_json(value),
        _ => notation(value),
    }
}

/// A value as JSON on one line, or the null value where there is no such line.
pub open spec fn inline_json(value: JsonView) -> Seq<char> {
    match compact_json(value) {
        Some(text) => text,
        None => "null"@,
    }
}

fn compact_or_null(value: &Json) -> (r: String)
    ensures
        r@ == inline_json(value@),
        one_line(r@),
{
    proof {
        reveal_strlit("null");
    }
    match value.compact() {
        Ok(text) => text,
        Err(_) => "null".to_owned(),
    }
}

/// Whether neither the text nor the number that a value is, if it is one, holds a line break.
pub open spec fn unbroken(value: JsonView) -> bool {
    match value {
        JsonView::String(s) => one_line(s),
        JsonView::Number(NumberView::Float(t)) => one_line(t),
        _ => true,
    }
}

/// A value as a scalar of YAML. It stands on one line, unless the value is a text of several.
pub fn format_value(value: &Json) -> (r: String)
    ensures
        r@ == formatted(value@),
        one_line(r@) == unbroken(value@),
{
    broadcast use lemma_json_view;

    proof {
        reveal_strlit("\"");
        reveal_strlit("true");
        reveal_strlit("false");
        reveal_strlit("null");
        reveal_strlit("[]");
        reveal_strlit("{}");
        match value@ {
            JsonView::String(s) => {
                lemma_one_line_quotes(s);
                lemma_one_line_concat("\""@, quotes_escaped(s));
                lemma_one_line_concat("\""@ + quotes_escaped(s), "\""@);
            },
            JsonView::Number(NumberView::Int(i)) => {
                lemma_one_line_decimal(i);
            },
            _ => {},
        }
    }
    match value {
        Json::String(s) => {
            let mut r: String = "\"".to_owned();
            r.append(escape_quotes(s.as_str()).as_str());
            r.append("\"");
            r
        },
        Json::Number(JsonNumber::Unsigned(u)) => unsigned_text(*u),
        Json::Number(JsonNumber::Signed(i)) => signed_text(*i),
        Json::Number(JsonNumber::Float(t)) => t.clone(),
        Json::Bool(b) => if *b {
            "true".to_owned()
        } else {
            "false".to_owned()
        },
        Json::Null => "null".to_owned(),
        Json::Array(items) => if items.len() == 0 {
            "[]".to_owned()
        } else {
            compact_or_null(value)
        },
        Json::Object(members) => if members.len() == 0 {
            "{}".to_owned()
        } else {
            compact_or_null(value)
        },
    }
}

/// A value as a node: what it holds, without descriptions.
pub open spec fn value_node(value: JsonView) -> NodeView
    decreases value,
{
    match value {
        JsonView::Object(members) => NodeView::Object(
            Seq::new(
                members.len(),
                |i: int|
                    if 0 <= i < members.len() {
                        (members[i].0, value_node(members[i].1), None)
                    } else {
                        arbitrary()
                    },
            ),
        ),
        JsonView::Array(items) => NodeView::Array(
            Seq::new(
                items.len(),
                |i: int|
                    if 0 <= i < items.len() {
                        value_node(items[i])
                    } else {
                        arbitrary()
                    },
            ),
        ),
        _ => NodeView::Scalar(formatted(value)),
    }
}

/// Convert a value from interactive input into a node.
pub fn value_to_node(value: &Json) -> (r: YamlNode)
    ensures
        r@ == value_node(value@),
    decreases value@,
{
    broadcast use lemma_json_view, lemma_node_view;

    match value {
        Json::Object(members) => {
            let ghost all = member_views(members@);
            let mut entries: Vec<(String, YamlNode, Option<String>)> = Vec::new();
            let mut i: usize = 0;
            while i < members.len()
                invariant
                    i <= members@.len(),
                    all == member_views(members@),
                    value@ == JsonView::Object(all),
                    entries@.len() == i,
                    forall|j: int|
                        0 <= j < i ==> entry_views(entries@)[j] == (
                            all[j].0,
                            value_node(#[trigger] all[j].1),
                            None::<Seq<char>>,
                        ),
                decreases members@.len() - i,
            {
                proof {
                    assert(decreases_to!(value@ => value@->Object_0));
                    assert(decreases_to!(all => all[i as int]));
                    assert(decreases_to!(all[i as int] => all[i as int].1));
                }
                let node: YamlNode = value_to_node(&members[i].1);
                let ghost before = entry_views(entries@);
                entries.push((members[i].0.clone(), node, None));
                proof {
                    assert forall|j: int| 0 <= j < i + 1 implies entry_views(entries@)[j] == (
                        all[j].0,
                        value_node(#[trigger] all[j].1),
                        None::<Seq<char>>,
                    ) by {
                        if j < i {
                            assert(entry_views(entries@)[j] == before[j]);
                        }
                    }
                }
                i = i + 1;
            }
            proof {
                assert(entry_views(entries@) =~= value_node(value@)->Object_0);
            }
            YamlNode::Object(entries)
        },
        Json::Array(values) => {
            let ghost all = json_views(values@);
            let mut items: Vec<YamlNode> = Vec::new();
            let mut i: usize = 0;
            while i < values.len()
                invariant
                    i <= values@.len(),
                    all == json_views(values@),
                    value@ == JsonView::Array(all),
                    items@.len() == i,
                    forall|j: int|
                        0 <= j < i ==> node_views(items@)[j] == value_node(#[trigger] all[j]),
                decreases values@.len() - i,
            {
                proof {
                    assert(decreases_to!(value@ => value@->Array_0));
                    assert(decreases_to!(all => all[i as int]));
                }
                let ghost before = node_views(items@);
                items.push(value_to_node(&values[i]));
                proof {
                    assert forall|j: int| 0 <= j < i + 1 implies node_views(items@)[j]
                        == value_node(#[trigger] all[j]) by {
                        if j < i {
                            assert(node_views(items@)[j] == before[j]);
                        }
                    }
                }
                i = i + 1;
            }
            proof {
                assert(node_views(items@) =~= value_node(value@)->Array_0);
            }
            YamlNode::Array(items)
        },
        _ => YamlNode::Scalar(format_value(value)),
    }
}

/// Whether fields of this name are commonly needed even if they are not required.
pub open spec fn common_name(name: Seq<char>) -> bool {
    // Core identifiers & config
    ||| name == "name"@
    ||| name == "image"@
    ||| name == "containerPort"@
    ||| name == "port"@
    ||| name == "protocol"@
    ||| name == "replicas"@
    ||| name == "selector"@
    ||| name == "template"@
    ||| name == "containers"@
    ||| name == "ports"@
    ||| name == "env"@
    ||| name == "resources"@
    ||| name == "labels"@
    ||| name == "annotations"@
    ||| name == "type"@
    ||| name == "data"@
    ||| name == "stringData"@
    // Env detail
    ||| name == "value"@
    ||| name == "valueFrom"@
    // Resource limits
    ||| name == "limits"@
    ||| name == "requests"@
    ||| name == "claims"@
    ||| name == "request"@
    // Container execution
    ||| name == "command"@
    ||| name == "args"@
    // Volumes
    ||| name == "volumeMounts"@
    ||| name == "mountPath"@
    ||| name == "volumes"@
    // RBAC
    ||| name == "rules"@
    ||| name == "subjects"@
    ||| name == "roleRef"@
    // Structural
    ||| name == "spec"@
    // NetworkPolicy
    ||| name == "podSelector"@
    ||| name == "policyTypes"@
    ||| name == "ingress"@
    ||| name == "egress"@
    ||| name == "from"@
    ||| name == "to"@
    ||| name == "matchLabels"@
    ||| name == "matchExpressions"@
    // Ingress
    ||| name == "ingressClassName"@
    ||| name == "tls"@
    // PV / PVC
    ||| name == "accessModes"@
    ||| name == "storageClassName"@
    // StatefulSet
    ||| name == "serviceName"@
    ||| name == "volumeClaimTemplates"@
    // Jobs / CronJobs
    ||| name == "schedule"@
    ||| name == "jobTemplate"@
    // HPA
    ||| name == "minReplicas"@
    ||| name == "maxReplicas"@
    ||| name == "metrics"@
}

/// Heuristic: is this field commonly needed even if not required?
pub fn is_commonly_needed(field: &FieldSchema) -> (r: bool)
    ensures
        r == common_name(field@.name),
{
    broadcast use lemma_field_view;

    let name: &str = field.name.as_str();
    // Core identifiers & config
    same(name, "name") || same(name, "image") || same(name, "containerPort") || same(name, "port")
        || same(name, "protocol") || same(name, "replicas") || same(name, "selector") || same(
        name,
        "template",
    ) || same(name, "containers") || same(name, "ports") || same(name, "env") || same(
        name,
        "resources",
    ) || same(name, "labels") || same(name, "annotations") || same(name, "type") || same(
        name,
        "data",
    ) || same(name, "stringData")
    // Env detail
     || same(name, "value") || same(name, "valueFrom")
    // Resource limits
     || same(name, "limits") || same(name, "requests") || same(name, "claims") || same(
        name,
        "request",
    )
    // Container execution
     || same(name, "command") || same(name, "args")
    // Volumes
     || same(name, "volumeMounts") || same(name, "mountPath") || same(name, "volumes")
    // RBAC
     || same(name, "rules") || same(name, "subjects") || same(name, "roleRef")
    // Structural
     || same(name, "spec")
    // NetworkPolicy
     || same(name, "podSelector") || same(name, "policyTypes") || same(name, "ingress") || same(
        name,
        "egress",
    ) || same(name, "from") || same(name, "to") || same(name, "matchLabels") || same(
        name,
        "matchExpressions",
    )
    // Ingress
     || same(name, "ingressClassName") || same(name, "tls")
    // PV / PVC
     || same(name, "accessModes") || same(name, "storageClassName")
    // StatefulSet
     || same(name, "serviceName") || same(name, "volumeClaimTemplates")
    // Jobs / CronJobs
     || same(name, "schedule") || same(name, "jobTemplate")
    // HPA
     || same(name, "minReplicas") || same(name, "maxReplicas") || same(name, "metrics")
}

/// Whether a field of an object passes the filter: with `minimal` a required one, with `full` any,
/// else one that is required or commonly needed.
pub open spec fn passes(field: FieldView, minimal: bool, full: bool) -> bool {
    if minimal {
        field.required
    } else {
        full || field.required || common_name(field.name)
    }
}

/// The positions of the fields that pass the filter.
pub open spec fn passing(fields: Seq<FieldView>, minimal: bool, full: bool) -> Seq<int>
    decreases fields.len(),
{
    if fields.len() == 0 {
        Seq::empty()
    } else {
        let before = passing(fields.drop_last(), minimal, full);
        if passes(fields.last(), minimal, full) {
            before.push(fields.len() - 1)
        } else {
            before
        }
    }
}

/// The positions of the fields that are shown: of those that pass the filter, or of all where
/// none does.
pub open spec fn shown(fields: Seq<FieldView>, minimal: bool, full: bool) -> Seq<int> {
    let some = passing(fields, minimal, full);
    if some.len() == 0 {
        Seq::new(fields.len(), |i: int| i)
    } else {
        some
    }
}

/// The fields at the given positions.
pub open spec fn fields_at(fields: Seq<FieldView>, order: Seq<int>) -> Seq<FieldView> {
    order.map_values(|i: int| fields[i])
}

/// Every position of the fields that are shown is one of a field; there is none only if there are
/// no fields.
pub proof fn lemma_shown(fields: Seq<FieldView>, minimal: bool, full: bool)
    ensures
        forall|k: int|
            0 <= k < shown(fields, minimal, full).len() ==> 0 <= #[trigger] shown(
                fields,
                minimal,
                full,
            )[k] < fields.len(),
        fields.len() > 0 ==> shown(fields, minimal, full).len() > 0,
{
    lemma_passing(fields, minimal, full);
}

/// The positions of the fields that pass the filter are those of all of them, and of no other.
pub proof fn lemma_passing(fields: Seq<FieldView>, minimal: bool, full: bool)
    ensures
        forall|k: int|
            0 <= k < passing(fields, minimal, full).len() ==> 0 <= #[trigger] passing(
                fields,
                minimal,
                full,
            )[k] < fields.len() && passes(
                fields[passing(fields, minimal, full)[k]],
                minimal,
                full,
            ),
        forall|i: int|
            0 <= i < fields.len() && passes(#[trigger] fields[i], minimal, full) ==> passing(
                fields,
                minimal,
                full,
            ).contains(i),
    decreases fields.len(),
{
    if fields.len() > 0 {
        let rest = fields.drop_last();
        let before = passing(rest, minimal, full);
        let now = passing(fields, minimal, full);
        lemma_passing(rest, minimal, full);
        assert forall|k: int| 0 <= k < now.len() implies 0 <= #[trigger] now[k] < fields.len()
            && passes(fields[now[k]], minimal, full) by {
            if k < before.len() {
                assert(now[k] == before[k]);
                assert(rest[before[k]] == fields[before[k]]);
            }
        }
        assert forall|i: int|
            0 <= i < fields.len() && passes(
                #[trigger] fields[i],
                minimal,
                full,
            ) implies now.contains(i) by {
            if i < rest.len() {
                assert(rest[i] == fields[i]);
                assert(before.contains(i));
                let k = choose|k: int| 0 <= k < before.len() && before[k] == i;
                assert(now[k] == i);
            } else {
                assert(now[now.len() - 1] == i);
            }
        }
    }
}

/// What is shown of the fields of an object is what was asked for, as far as there is any: if some
/// field is required, `minimal` shows required fields alone, and all of them; `full` without
/// `minimal` shows every field.
pub proof fn lemma_shown_as_asked(fields: Seq<FieldView>, minimal: bool, full: bool, i: int)
    requires
        0 <= i < fields.len(),
    ensures
        minimal && (exists|j: int| 0 <= j < fields.len() && (#[trigger] fields[j]).required) ==> (
        shown(fields, minimal, full).contains(i) <==> fields[i].required),
        !minimal && full ==> shown(fields, minimal, full).contains(i),
        !minimal && (fields[i].required || common_name(fields[i].name)) ==> shown(
            fields,
            minimal,
            full,
        ).contains(i),
{
    lemma_passing(fields, minimal, full);
    let some = passing(fields, minimal, full);
    if minimal && (exists|j: int| 0 <= j < fields.len() && (#[trigger] fields[j]).required) {
        let j = choose|j: int| 0 <= j < fields.len() && (#[trigger] fields[j]).required;
        assert(passes(fields[j], minimal, full));
        assert(some.contains(j));
    }
    if passes(fields[i], minimal, full) {
        assert(some.contains(i));
    }
    if some.contains(i) {
        let k = choose|k: int| 0 <= k < some.len() && some[k] == i;
        assert(passes(fields[some[k]], minimal, full));
    }
}

/// Select which sub-fields to show.  When nothing matches the filter we fall
/// back to showing ALL sub-fields so we never discard known schema structure.
pub fn filter_fields(sub_fields: &[FieldSchema], minimal: bool, full: bool) -> (r: Vec<
    &FieldSchema,
>)
    ensures
        field_ref_views(r@) == fields_at(
            field_views(sub_fields@),
            shown(field_views(sub_fields@), minimal, full),
        ),
{
    broadcast use lemma_field_view;

    let ghost all = field_views(sub_fields@);
    let mut r: Vec<&FieldSchema> = Vec::new();
    let mut i: usize = 0;
    proof {
        assert(field_ref_views(r@) =~= fields_at(all, passing(all.take(0), minimal, full)));
    }
    while i < sub_fields.len()
        invariant
            i <= sub_fields@.len(),
            all == field_views(sub_fields@),
            field_ref_views(r@) == fields_at(all, passing(all.take(i as int), minimal, full)),
        decreases sub_fields@.len() - i,
    {
        let field: &FieldSchema = &sub_fields[i];
        proof {
            assert(all.take(i + 1).drop_last() =~= all.take(i as int));
            assert(all.take(i + 1).last() == field@);
            assert(field_ref_views(r@.push(field)) =~= field_ref_views(r@).push(field@));
            assert(fields_at(all, passing(all.take(i as int), minimal, full).push(i as int))
                =~= fields_at(all, passing(all.take(i as int), minimal, full)).push(field@));
        }
        let keep: bool = if minimal {
            field.required
        } else {
            full || field.required || is_commonly_needed(field)
        };
        if keep {
            r.push(field);
        }
        i = i + 1;
    }
    proof {
        assert(all.take(i as int) =~= all);
    }
    if r.len() == 0 {
        let r: Vec<&FieldSchema> = crate::schema::field::field_refs(sub_fields);
        proof {
            assert(field_ref_views(r@) =~= fields_at(all, shown(all, minimal, full)));
        }
        return r;
    }
    r
}

/// Whether a value is an object or a list that holds nothing.
pub open spec fn holds_nothing(value: JsonView) -> bool {
    match value {
        JsonView::Object(members) => members.len() == 0,
        JsonView::Array(items) => items.len() == 0,
        _ => false,
    }
}

/// Whether the parts of values of this type are known.
pub open spec fn structured(field_type: FieldTypeView) -> bool {
    match field_type {
        FieldTypeView::Object(fields) => fields.len() > 0,
        FieldTypeView::Array(_) => true,
        FieldTypeView::Mapping(value) => value is Some,
        _ => false,
    }
}

/// The default that is written for a field, if one is: an empty one is not where the parts of the
/// field are known.
pub open spec fn written_default(field: FieldView) -> Option<JsonView> {
    match field.default {
        Some(d) => if holds_nothing(d) && structured(field.field_type) {
            None
        } else {
            Some(d)
        },
        None => None,
    }
}

/// The first of the values that a field can have, if they are known.
pub open spec fn first_choice(field: FieldView) -> Option<JsonView> {
    match field.enum_values {
        Some(values) => if values.len() > 0 {
            Some(values[0])
        } else {
            None
        },
        None => None,
    }
}

/// The comment on a field.
pub open spec fn described(field: FieldView) -> Option<Seq<char>> {
    match field.description {
        Some(d) => Some(sentence_of(d)),
        None => None,
    }
}

/// The node of a field: its default, its first choice or a scaffold for its type.
pub open spec fn field_node(field: FieldView, full: bool, minimal: bool) -> NodeView
    decreases field, 0nat,
{
    match (written_default(field), first_choice(field)) {
        (Some(d), _) => NodeView::Scalar(formatted(d)),
        (None, Some(v)) => NodeView::Scalar(formatted(v)),
        (None, None) => match field.field_type {
            FieldTypeView::String => if field.format == Some("date-time"@) {
                NodeView::Scalar("\"2025-01-01T00:00:00Z\""@)
            } else {
                NodeView::Scalar("\"\""@)
            },
            FieldTypeView::Integer => NodeView::Scalar("0"@),
            FieldTypeView::Number => NodeView::Scalar("0.0"@),
            FieldTypeView::Boolean => NodeView::Scalar("false"@),
            FieldTypeView::Array(item) => NodeView::Array(
                seq![field_node(*item, full, minimal)],
            ),
            FieldTypeView::Object(fields) => if fields.len() == 0 {
                NodeView::Scalar("{}"@)
            } else {
                NodeView::Object(object_entries(fields, full, minimal))
            },
            FieldTypeView::Mapping(_) => NodeView::Mapping,
            FieldTypeView::Any => NodeView::Scalar("null"@),
        },
    }
}

/// The entries of an object with these fields.
pub open spec fn object_entries(fields: Seq<FieldView>, full: bool, minimal: bool) -> Seq<Entry>
    decreases fields, 0nat,
{
    let order = shown(fields, minimal, full);
    Seq::new(
        order.len(),
        |k: int|
            if 0 <= order[k] < fields.len() {
                (
                    fields[order[k]].name,
                    field_node(fields[order[k]], full, minimal),
                    described(fields[order[k]]),
                )
            } else {
                arbitrary()
            },
    )
}

fn describe(field: &FieldSchema) -> (r: Option<String>)
    ensures
        opt_text(r) == described(field@),
{
    broadcast use lemma_field_view;

    match &field.description {
        Some(d) => Some(first_sentence(d.as_str()).to_owned()),
        None => None,
    }
}

fn is_structured(field_type: &FieldType) -> (r: bool)
    ensures
        r == structured(field_type@),
{
    broadcast use lemma_field_type_view;

    match field_type {
        FieldType::Object(fields) => fields.len() > 0,
        FieldType::Array(_) => true,
        FieldType::Mapping(Some(_)) => true,
        _ => false,
    }
}

fn is_empty_value(value: &Json) -> (r: bool)
    ensures
        r == holds_nothing(value@),
{
    broadcast use lemma_json_view;

    match value {
        Json::Object(members) => members.len() == 0,
        Json::Array(items) => items.len() == 0,
        _ => false,
    }
}

/// The node of a field. A value from interactive input overrides everything.
pub fn build_node(
    field: &FieldSchema,
    full: bool,
    minimal: bool,
    interactive_val: Option<&Json>,
) -> (r: YamlNode)
    ensures
        r@ == (match interactive_val {
            Some(v) => value_node(v@),
            None => field_node(field@, full, minimal),
        }),
    decreases field@, 0nat,
{
    broadcast use lemma_field_view, lemma_field_type_view, lemma_node_view;

    if let Some(val) = interactive_val {
        return value_to_node(val);
    }
    if let Some(default) = &field.default {
        if !is_empty_value(default) || !is_structured(&field.field_type) {
            return YamlNode::Scalar(format_value(default));
        }
    }
    if let Some(values) = &field.enum_values {
        if values.len() > 0 {
            proof {
                assert(json_views(values@)[0] == values@[0]@);
            }
            return YamlNode::Scalar(format_value(&values[0]));
        }
    }
    match &field.field_type {
        FieldType::String => {
            let date_time: bool = match &field.format {
                Some(format) => same(format.as_str(), "date-time"),
                None => false,
            };
            if date_time {
                YamlNode::Scalar("\"2025-01-01T00:00:00Z\"".to_owned())
            } else {
                YamlNode::Scalar("\"\"".to_owned())
            }
        },
        FieldType::Integer => YamlNode::Scalar("0".to_owned()),
        FieldType::Number => YamlNode::Scalar("0.0".to_owned()),
        FieldType::Boolean => YamlNode::Scalar("false".to_owned()),
        FieldType::Array(item) => {
            let mut items: Vec<YamlNode> = Vec::new();
            items.push(build_node(item, full, minimal, None));
            proof {
                assert(node_views(items@) =~= seq![field_node(item@, full, minimal)]);
            }
            YamlNode::Array(items)
        },
        FieldType::Object(sub_fields) => {
            if sub_fields.len() == 0 {
                YamlNode::Scalar("{}".to_owned())
            } else {
                build_object_node(sub_fields.as_slice(), full, minimal)
            }
        },
        FieldType::Mapping(_) => YamlNode::Mapping,
        FieldType::Any => YamlNode::Scalar("null".to_owned()),
    }
}

/// Build an Object node from a list of sub-fields, applying the
/// minimal / full / commonly-needed filter.
pub fn build_object_node(sub_fields: &[FieldSchema], full: bool, minimal: bool) -> (r: YamlNode)
    ensures
        r@ == NodeView::Object(object_entries(field_views(sub_fields@), full, minimal)),
    decreases field_views(sub_fields@), 0nat,
{
    broadcast use lemma_field_view, lemma_node_view;

    let ghost all = field_views(sub_fields@);
    let ghost order = shown(all, minimal, full);
    let ghost whole = object_entries(all, full, minimal);
    proof {
        lemma_shown(all, minimal, full);
    }
    let fields: Vec<&FieldSchema> = filter_fields(sub_fields, minimal, full);
    let mut entries: Vec<(String, YamlNode, Option<String>)> = Vec::new();
    let mut k: usize = 0;
    proof {
        assert(field_ref_views(fields@).len() == fields_at(all, order).len());
        assert(entry_views(entries@) =~= whole.take(0));
    }
    while k < fields.len()
        invariant
            k <= fields@.len(),
            fields@.len() == order.len(),
            all == field_views(sub_fields@),
            order == shown(all, minimal, full),
            whole == object_entries(all, full, minimal),
            forall|k: int| 0 <= k < order.len() ==> 0 <= #[trigger] order[k] < all.len(),
            field_ref_views(fields@) == fields_at(all, order),
            entry_views(entries@) == whole.take(k as int),
        decreases fields@.len() - k,
    {
        let field: &FieldSchema = fields[k];
        proof {
            assert(field_ref_views(fields@)[k as int] == field@);
            assert(fields_at(all, order)[k as int] == all[order[k as int]]);
            assert(decreases_to!(all => all[order[k as int]]));
        }
        let node: YamlNode = build_node(field, full, minimal, None);
        let entry = (field.name.clone(), node, describe(field));
        proof {
            assert(whole[k as int] == (entry.0@, entry.1@, opt_text(entry.2)));
            assert(entry_views(entries@.push(entry)) =~= entry_views(entries@).push(
                whole[k as int],
            ));
            assert(whole.take(k + 1) =~= whole.take(k as int).push(whole[k as int]));
        }
        entries.push(entry);
        k = k + 1;
    }
    proof {
        assert(whole.take(k as int) =~= whole);
    }
    YamlNode::Object(entries)
}

/// Whether fields of this name are written apart from the others, or not at all.
pub open spec fn reserved(name: Seq<char>) -> bool {
    name == "apiVersion"@ || name == "kind"@ || name == "metadata"@ || name == "status"@
}

/// Whether a field of the resource is written: with `minimal` if it is required, else always; but
/// none whose name is reserved.
pub open spec fn rendered(field: FieldView, minimal: bool) -> bool {
    !reserved(field.name) && (minimal ==> field.required)
}

/// The fields of the resource that are written, in order.
pub open spec fn fields_rendered(fields: Seq<FieldView>, minimal: bool) -> Seq<FieldView>
    decreases fields.len(),
{
    if fields.len() == 0 {
        Seq::empty()
    } else {
        let before = fields_rendered(fields.drop_last(), minimal);
        if rendered(fields.last(), minimal) {
            before.push(fields.last())
        } else {
            before
        }
    }
}

/// The fields of the resource that are written: all but apiVersion, kind, metadata and status,
/// and with `minimal` only those that are required.
pub fn fields_to_render(schema: &ResourceSchema, minimal: bool) -> (r: Vec<&FieldSchema>)
    ensures
        field_ref_views(r@) == fields_rendered(schema@.fields, minimal),
{
    broadcast use lemma_field_view;

    let ghost all = schema@.fields;
    let mut r: Vec<&FieldSchema> = Vec::new();
    let mut i: usize = 0;
    proof {
        assert(field_ref_views(r@) =~= fields_rendered(all.take(0), minimal));
    }
    while i < schema.fields.len()
        invariant
            i <= schema.fields@.len(),
            all == field_views(schema.fields@),
            field_ref_views(r@) == fields_rendered(all.take(i as int), minimal),
        decreases schema.fields@.len() - i,
    {
        let field: &FieldSchema = &schema.fields[i];
        let name: &str = field.name.as_str();
        proof {
            assert(all.take(i + 1).drop_last() =~= all.take(i as int));
            assert(all.take(i + 1).last() == field@);
            assert(field_ref_views(r@.push(field)) =~= field_ref_views(r@).push(field@));
        }
        let is_reserved: bool = same(name, "apiVersion") || same(name, "kind") || same(
            name,
            "metadata",
        ) || same(name, "status");
        if !is_reserved && (!minimal || field.required) {
            r.push(field);
        }
        i = i + 1;
    }
    proof {
        assert(all.take(i as int) =~= all);
    }
    r
}

/// The API version of a resource: its group, if it has one, and its version.
pub open spec fn api_version_of(resolved: ResolvedView) -> Seq<char> {
    if resolved.group.len() == 0 {
        resolved.version
    } else {
        resolved.group + "/"@ + resolved.version
    }
}

/// The namespace of a resource: none if it is not in one, else the one that was asked for or the
/// default one.
pub open spec fn namespace_of(resolved: ResolvedView, args: ArgsView) -> Option<Seq<char>> {
    if !resolved.namespaced {
        None
    } else {
        match args.namespace {
            Some(ns) => Some(ns),
            None => Some("default"@),
        }
    }
}

/// The metadata of a resource: its name and its namespace.
pub open spec fn metadata_of(resolved: ResolvedView, args: ArgsView) -> Seq<Entry> {
    let name = match args.name {
        Some(n) => n,
        None => "my-resource"@,
    };
    let named = ("name"@, NodeView::Scalar(name), None::<Seq<char>>);
    match namespace_of(resolved, args) {
        Some(ns) => seq![named, ("namespace"@, NodeView::Scalar(ns), None)],
        None => seq![named],
    }
}

/// The value that was entered for a field, if any.
pub open spec fn entered_for(values: Option<Seq<Member>>, name: Seq<char>) -> Option<JsonView> {
    match values {
        Some(members) => lookup(members, name),
        None => None,
    }
}

/// The entry of a field: a value that was entered for it overrides everything.
pub open spec fn field_entry(
    field: FieldView,
    args: ArgsView,
    values: Option<Seq<Member>>,
) -> Entry {
    let node = match entered_for(values, field.name) {
        Some(v) => value_node(v),
        None => field_node(field, args.full, args.minimal),
    };
    (field.name, node, described(field))
}

/// The entries of the document: apiVersion, kind and metadata, and then those of the fields.
pub open spec fn document_entries(
    resolved: ResolvedView,
    schema: ResourceSchemaView,
    args: ArgsView,
    values: Option<Seq<Member>>,
) -> Seq<Entry> {
    seq![
        ("apiVersion"@, NodeView::Scalar(api_version_of(resolved)), None::<Seq<char>>),
        ("kind"@, NodeView::Scalar(resolved.kind), None),
        ("metadata"@, NodeView::Object(metadata_of(resolved, args)), None),
    ] + fields_rendered(schema.fields, args.minimal).map_values(
        |f: FieldView| field_entry(f, args, values),
    )
}

/// The text of the document.
pub open spec fn document(
    resolved: ResolvedView,
    schema: ResourceSchemaView,
    args: ArgsView,
    values: Option<Seq<Member>>,
) -> Seq<char> {
    "---\n"@ + joined(
        document_lines(
            NodeView::Object(document_entries(resolved, schema, args, values)),
            !args.no_comments,
        ),
        "\n"@,
    )
}

/// What the values of fields are, if there are any.
pub open spec fn opt_members(values: Option<&Vec<(String, Json)>>) -> Option<Seq<Member>> {
    match values {
        Some(members) => Some(member_views(members@)),
        None => None,
    }
}

fn scalar_entry(key: &str, value: &str) -> (r: (String, YamlNode, Option<String>))
    ensures
        r.0@ == key@,
        r.1@ == NodeView::Scalar(value@),
        opt_text(r.2) is None,
{
    broadcast use lemma_node_view;

    (key.to_owned(), YamlNode::Scalar(value.to_owned()), None)
}

fn metadata(resolved: &ResolvedResource, args: &Args) -> (r: YamlNode)
    ensures
        r@ == NodeView::Object(metadata_of(resolved@, args@)),
{
    broadcast use lemma_node_view;

    let mut entries: Vec<(String, YamlNode, Option<String>)> = Vec::new();
    let name: &str = match &args.name {
        Some(n) => n.as_str(),
        None => "my-resource",
    };
    entries.push(scalar_entry("name", name));
    if resolved.namespaced {
        let namespace: &str = match &args.namespace {
            Some(ns) => ns.as_str(),
            None => "default",
        };
        entries.push(scalar_entry("namespace", namespace));
    }
    proof {
        assert(entry_views(entries@) =~= metadata_of(resolved@, args@));
    }
    YamlNode::Object(entries)
}

fn api_version(resolved: &ResolvedResource) -> (r: String)
    ensures
        r@ == api_version_of(resolved@),
{
    if resolved.group.as_str().unicode_len() == 0 {
        resolved.version.clone()
    } else {
        let mut r: String = resolved.group.clone();
        r.append("/");
        r.append(resolved.version.as_str());
        r
    }
}

/// The YAML of a resource whose fields have the given values, as far as there are any.
pub fn render(
    resolved: &ResolvedResource,
    schema: &ResourceSchema,
    args: &Args,
    values: Option<&Vec<(String, Json)>>,
) -> (r: String)
    ensures
        r@ == document(resolved@, schema@, args@, opt_members(values)),
{
    broadcast use lemma_field_view, lemma_node_view;

    let ghost whole = document_entries(resolved@, schema@, args@, opt_members(values));
    let mut entries: Vec<(String, YamlNode, Option<String>)> = Vec::new();
    entries.push(scalar_entry("apiVersion", api_version(resolved).as_str()));
    entries.push(scalar_entry("kind", resolved.api_resource.kind.as_str()));
    entries.push(("metadata".to_owned(), metadata(resolved, args), None));
    let fields: Vec<&FieldSchema> = fields_to_render(schema, args.minimal);
    let mut i: usize = 0;
    proof {
        assert(entry_views(entries@) =~= whole.take(3));
    }
    while i < fields.len()
        invariant
            i <= fields@.len(),
            field_ref_views(fields@) == fields_rendered(schema@.fields, args.minimal),
            whole == document_entries(resolved@, schema@, args@, opt_members(values)),
            entry_views(entries@) == whole.take(3 + i),
        decreases fields@.len() - i,
    {
        let field: &FieldSchema = fields[i];
        let entered: Option<&Json> = match values {
            Some(members) => find_member(members, field.name.as_str()),
            None => None,
        };
        let node: YamlNode = build_node(field, args.full, args.minimal, entered);
        let entry = (field.name.clone(), node, describe(field));
        proof {
            assert(field_ref_views(fields@)[i as int] == field@);
            assert(whole[3 + i] == field_entry(field@, args@, opt_members(values)));
            assert((entry.0@, entry.1@, opt_text(entry.2)) == whole[3 + i]);
            assert(entry_views(entries@.push(entry)) =~= entry_views(entries@).push(
                whole[3 + i],
            ));
            assert(whole.take(3 + i + 1) =~= whole.take(3 + i).push(whole[3 + i]));
        }
        entries.push(entry);
        i = i + 1;
    }
    proof {
        assert(whole.take(3 + i) =~= whole);
    }
    let mut text: String = "---\n".to_owned();
    text.append(emit_yaml(&YamlNode::Object(entries), !args.no_comments).as_str());
    text
}

/// How far the making of the YAML has come.
#[derive(Debug, PartialEq, Eq)]
pub enum Generated {
    /// This is to be asked next.
    Ask(Question),
    /// The YAML.
    Yaml(String),
    /// An answer does not fit the question it was given to.
    Misfit,
}

/// How far the making of the YAML has come.
pub enum GeneratedView {
    Ask(QuestionView),
    Yaml(Seq<char>),
    Misfit,
}

impl Generated {
    pub open spec fn view(&self) -> GeneratedView {
        match *self {
            Generated::Ask(q) => GeneratedView::Ask(q@),
            Generated::Yaml(text) => GeneratedView::Yaml(text@),
            Generated::Misfit => GeneratedView::Misfit,
        }
    }
}

/// What is shown on the way to the YAML, given the answers so far, and how far it has come. Nothing
/// is asked unless interactive mode is on; then required fields are asked for, or with `full` all
/// that are written.
pub open spec fn generation(
    resolved: ResolvedView,
    schema: ResourceSchemaView,
    args: ArgsView,
    answers: Seq<AnswerView>,
) -> (Seq<NoticeView>, GeneratedView) {
    if args.interactive {
        let (shown, progress) = dialogue(
            fields_rendered(schema.fields, args.minimal),
            !args.full,
            answers,
        );
        (
            shown,
            match progress {
                ProgressView::Ask(q) => GeneratedView::Ask(q),
                ProgressView::Done(values) => GeneratedView::Yaml(
                    document(resolved, schema, args, Some(values)),
                ),
                ProgressView::Misfit => GeneratedView::Misfit,
            },
        )
    } else {
        (Seq::empty(), GeneratedView::Yaml(document(resolved, schema, args, None)))
    }
}

/// Generate YAML for the resource using its schema and smart defaults. In interactive mode, -i alone
/// prompts required only, -i --full prompts all: given the answers so far, this returns everything
/// that is to be shown up to this point and how far the YAML has come.
pub fn generate_yaml(
    resolved: &ResolvedResource,
    schema: &ResourceSchema,
    args: &Args,
    answers: &Vec<Answer>,
) -> (r: (Vec<Notice>, Generated))
    ensures
        (notice_views(r.0@), r.1@) == generation(
            resolved@,
            schema@,
            args@,
            answer_views(answers@),
        ),
{
    if args.interactive {
        let fields: Vec<&FieldSchema> = fields_to_render(schema, args.minimal);
        let (notices, progress) = prompt_for_fields(fields.as_slice(), !args.full, answers);
        let generated: Generated = match progress {
            Progress::Ask(question) => Generated::Ask(question),
            Progress::Done(values) => Generated::Yaml(
                render(resolved, schema, args, Some(&values)),
            ),
            Progress::Misfit => Generated::Misfit,
        };
        (notices, generated)
    } else {
        let notices: Vec<Notice> = Vec::new();
        proof {
            assert(notice_views(notices@) =~= Seq::empty());
        }
        (notices, Generated::Yaml(render(resolved, schema, args, None)))
    }
}

/// The fields that are written are those, and only those, that are to be: none with a reserved
/// name, and with `minimal` required ones alone.
pub proof fn lemma_fields_rendered(fields: Seq<FieldView>, minimal: bool, field: FieldView)
    ensures
        fields_rendered(fields, minimal).contains(field) <==> fields.contains(field) && rendered(
            field,
            minimal,
        ),
    decreases fields.len(),
{
    let all = fields_rendered(fields, minimal);
    if fields.len() > 0 {
        let rest = fields.drop_last();
        let last = fields.last();
        let before = fields_rendered(rest, minimal);
        lemma_fields_rendered(rest, minimal, field);
        if before.contains(field) {
            let k = choose|k: int| 0 <= k < before.len() && before[k] == field;
            assert(all[k] == field);
        }
        if rest.contains(field) {
            let k = choose|k: int| 0 <= k < rest.len() && rest[k] == field;
            assert(fields[k] == field);
        }
        if field == last {
            assert(fields[fields.len() - 1] == field);
            if rendered(last, minimal) {
                assert(all[all.len() - 1] == field);
            }
        } else {
            if all.contains(field) {
                let k = choose|k: int| 0 <= k < all.len() && all[k] == field;
                assert(before[k] == field);
            }
            if fields.contains(field) {
                let k = choose|k: int| 0 <= k < fields.len() && fields[k] == field;
                assert(rest[k] == field);
            }
        }
    }
}

/// A value that was entered for a field that is written overrides everything: the document has it,
/// whatever the default, the choices and the type of the field are.
pub proof fn lemma_entered_overrides(
    resolved: ResolvedView,
    schema: ResourceSchemaView,
    args: ArgsView,
    values: Seq<Member>,
    field: FieldView,
)
    requires
        schema.fields.contains(field),
        rendered(field, args.minimal),
        lookup(values, field.name) is Some,
    ensures
        document_entries(resolved, schema, args, Some(values)).contains(
            (field.name, value_node(lookup(values, field.name)->0), described(field)),
        ),
{
    let fields = fields_rendered(schema.fields, args.minimal);
    let all = document_entries(resolved, schema, args, Some(values));
    lemma_fields_rendered(schema.fields, args.minimal, field);
    let k = choose|k: int| 0 <= k < fields.len() && fields[k] == field;
    assert(all[3 + k] == field_entry(field, args, Some(values)));
}

/// With `no_comments` the descriptions do not matter: the document is that of the same tree without
/// any description.
pub proof fn lemma_no_comments(
    resolved: ResolvedView,
    schema: ResourceSchemaView,
    args: ArgsView,
    values: Option<Seq<Member>>,
)
    requires
        args.no_comments,
    ensures
        document(resolved, schema, args, values) == "---\n"@ + joined(
            document_lines(
                undescribed(NodeView::Object(document_entries(resolved, schema, args, values))),
                true,
            ),
            "\n"@,
        ),
{
    lemma_descriptions_suppressed(
        NodeView::Object(document_entries(resolved, schema, args, values)),
    );
}

/// A namespace is written for namespaced resources alone, whatever was asked for.
pub proof fn lemma_namespace(resolved: ResolvedView, args: ArgsView)
    ensures
        resolved.namespaced <==> (exists|i: int|
            0 <= i < metadata_of(resolved, args).len() && (#[trigger] metadata_of(
                resolved,
                args,
            )[i]).0 == "namespace"@),
{
    reveal_strlit("name");
    reveal_strlit("namespace");
    if resolved.namespaced {
        assert(metadata_of(resolved, args)[1].0 == "namespace"@);
    } else {
        assert("name"@.len() != "namespace"@.len());
    }
}

proof fn lemma_passing_undescribed(fields: Seq<FieldView>, minimal: bool, full: bool)
    ensures
        passing(fields_undescribed(fields), minimal, full) == passing(fields, minimal, full),
    decreases fields.len(),
{
    if fields.len() > 0 {
        lemma_passing_undescribed(fields.drop_last(), minimal, full);
        assert(fields_undescribed(fields).drop_last() =~= fields_undescribed(fields.drop_last()));
        assert(fields_undescribed(fields).last() == field_undescribed(fields.last()));
    }
}

proof fn lemma_node_undescribed(field: FieldView, full: bool, minimal: bool)
    ensures
        undescribed(field_node(field, full, minimal)) == field_node(
            field_undescribed(field),
            full,
            minimal,
        ),
    decreases field,
{
    let bare = field_undescribed(field);
    let node = field_node(field, full, minimal);
    lemma_type_undescribed(field.field_type);
    lemma_undescribed(node);
    assert(bare.field_type == type_undescribed(field.field_type));
    assert(written_default(bare) == written_default(field));
    assert(first_choice(bare) == first_choice(field));
    if written_default(field) is None && first_choice(field) is None {
        match field.field_type {
            FieldTypeView::Array(item) => {
                lemma_node_undescribed(*item, full, minimal);
                assert(items_undescribed(node->Array_0) =~= seq![
                    field_node(field_undescribed(*item), full, minimal),
                ]);
            },
            FieldTypeView::Object(fields) => {
                if fields.len() > 0 {
                    lemma_entries_without(fields, full, minimal);
                }
            },
            _ => {},
        }
    }
}

proof fn lemma_entries_without(fields: Seq<FieldView>, full: bool, minimal: bool)
    ensures
        entries_undescribed(object_entries(fields, full, minimal)) == object_entries(
            fields_undescribed(fields),
            full,
            minimal,
        ),
    decreases fields,
{
    let bare = fields_undescribed(fields);
    let order = shown(fields, minimal, full);
    let a = entries_undescribed(object_entries(fields, full, minimal));
    let b = object_entries(bare, full, minimal);
    lemma_passing_undescribed(fields, minimal, full);
    lemma_shown(fields, minimal, full);
    assert(shown(bare, minimal, full) =~= order);
    assert forall|k: int| 0 <= k < order.len() implies a[k] == b[k] by {
        let f = fields[order[k]];
        lemma_node_undescribed(f, full, minimal);
        assert(bare[order[k]] == field_undescribed(f));
    }
    assert(a =~= b);
}

proof fn lemma_value_undescribed(value: JsonView)
    ensures
        undescribed(value_node(value)) == value_node(value),
    decreases value,
{
    let node = value_node(value);
    lemma_undescribed(node);
    match value {
        JsonView::Object(members) => {
            assert forall|i: int| 0 <= i < members.len() implies undescribed(
                value_node((#[trigger] members[i]).1),
            ) == value_node(members[i].1) by {
                assert(decreases_to!(value => value->Object_0));
                assert(decreases_to!(members => members[i]));
                assert(decreases_to!(members[i] => members[i].1));
                lemma_value_undescribed(members[i].1);
            }
            assert(entries_undescribed(node->Object_0) =~= node->Object_0);
        },
        JsonView::Array(items) => {
            assert forall|i: int| 0 <= i < items.len() implies undescribed(
                value_node(#[trigger] items[i]),
            ) == value_node(items[i]) by {
                assert(decreases_to!(value => value->Array_0));
                lemma_value_undescribed(items[i]);
            }
            assert(items_undescribed(node->Array_0) =~= node->Array_0);
        },
        _ => {},
    }
}

proof fn lemma_rendered_undescribed(fields: Seq<FieldView>, minimal: bool)
    ensures
        fields_rendered(fields_undescribed(fields), minimal) == fields_undescribed(
            fields_rendered(fields, minimal),
        ),
    decreases fields.len(),
{
    let bare = fields_undescribed(fields);
    if fields.len() > 0 {
        lemma_rendered_undescribed(fields.drop_last(), minimal);
        assert(bare.drop_last() =~= fields_undescribed(fields.drop_last()));
        assert(bare.last() == field_undescribed(fields.last()));
        let before = fields_rendered(fields.drop_last(), minimal);
        assert(fields_undescribed(before.push(fields.last())) =~= fields_undescribed(before).push(
            bare.last(),
        ));
    } else {
        assert(fields_rendered(bare, minimal) =~= fields_undescribed(
            fields_rendered(fields, minimal),
        ));
    }
}

proof fn lemma_document_undescribed(
    resolved: ResolvedView,
    schema: ResourceSchemaView,
    args: ArgsView,
    values: Option<Seq<Member>>,
)
    ensures
        undescribed(NodeView::Object(document_entries(resolved, schema, args, values)))
            == NodeView::Object(
            document_entries(resolved, schema_undescribed(schema), args, values),
        ),
{
    let bare = schema_undescribed(schema);
    let fields = fields_rendered(schema.fields, args.minimal);
    let bare_fields = fields_rendered(bare.fields, args.minimal);
    let all = document_entries(resolved, schema, args, values);
    let a = entries_undescribed(all);
    let b = document_entries(resolved, bare, args, values);
    lemma_undescribed(NodeView::Object(all));
    lemma_rendered_undescribed(schema.fields, args.minimal);
    let metadata = NodeView::Object(metadata_of(resolved, args));
    lemma_undescribed(metadata);
    assert(entries_undescribed(metadata_of(resolved, args)) =~= metadata_of(resolved, args));
    assert forall|i: int| 0 <= i < a.len() implies a[i] == b[i] by {
        if i >= 3 {
            let f = fields[i - 3];
            assert(bare_fields[i - 3] == field_undescribed(f));
            lemma_node_undescribed(f, args.full, args.minimal);
            match entered_for(values, f.name) {
                Some(v) => {
                    lemma_value_undescribed(v);
                },
                None => {},
            }
            assert(all[i] == field_entry(f, args, values));
            assert(b[i] == field_entry(field_undescribed(f), args, values));
        }
    }
    assert(a =~= b);
}

/// With `no_comments`, two schemas that are equal but for descriptions give the same document.
pub proof fn lemma_no_comments_same_document(
    resolved: ResolvedView,
    one: ResourceSchemaView,
    other: ResourceSchemaView,
    args: ArgsView,
    values: Option<Seq<Member>>,
)
    requires
        args.no_comments,
        schema_undescribed(one) == schema_undescribed(other),
    ensures
        document(resolved, one, args, values) == document(resolved, other, args, values),
{
    lemma_no_comments(resolved, one, args, values);
    lemma_no_comments(resolved, other, args, values);
    lemma_document_undescribed(resolved, one, args, values);
    lemma_document_undescribed(resolved, other, args, values);
}

/// A date-time field of an OpenAPI v3 schema, without a default and without choices, has the
/// placeholder for a date and time.
pub proof fn lemma_date_time_placeholder(
    schemas: Seq<Named>,
    open: Seq<IdView>,
    name: Seq<char>,
    id: IdView,
    s: SchemaTree,
    full: bool,
    minimal: bool,
)
    requires
        s.default is None,
        s.kind matches KindTree::Typed(
            TypeTree::String { format: FormatView::Known(KnownFormat::DateTime), choices },
        ) && text_choices(choices).len() == 0,
    ensures
        field_node(opened_field(schemas, open, name, id, s), full, minimal) == NodeView::Scalar(
            "\"2025-01-01T00:00:00Z\""@,
        ),
{
    let field = opened_field(schemas, open, name, id, s);
    assert(field.field_type == FieldTypeView::String) by {
        assert(type_at(schemas, open, id, s.kind) == FieldTypeView::String);
    }
    assert(field.format == Some("date-time"@));
    assert(field.enum_values is None);
}

}
