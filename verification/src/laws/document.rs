//! What stands in a document.

use vstd::prelude::*;

use super::positions::{ascending, lemma_ascending_push};
use crate::cli::ArgsView;
use crate::discovery::ResolvedView;
use crate::generate::{
    common_name, described, document, document_entries, field_entry, field_node, fields_at,
    fields_rendered, formatted, generation, lemma_passing, line_of, metadata_of, object_entries,
    passes, passing, sentence_end, sentence_of, shown, value_node, GeneratedView,
};
use crate::interactive::{dialogue, AnswerView, ProgressView};
use crate::json::{lookup, JsonView, Member, NumberView};
use crate::schema::field::{FieldTypeView, FieldView, ResourceSchemaView};
use crate::text::{
    first_occurrence, joined, lemma_first_occurrence, lemma_no_occurrence, occurs, occurs_at,
    quotes_escaped, signed_decimal,
};
use crate::value::{canonical, compact_text};
use crate::yaml::{document_lines, NodeView};

verus! {

/// Whether the default of a field says something: there is one, and it is not an empty object or an
/// empty list where the parts of the field are known.
pub open spec fn has_default(field: FieldView) -> bool {
    match field.default {
        Some(JsonView::Object(members)) => members.len() > 0 || !has_known_parts(field),
        Some(JsonView::Array(items)) => items.len() > 0 || !has_known_parts(field),
        Some(_) => true,
        None => false,
    }
}

/// Whether the parts of a field are known: it has fields, items, or values of a known schema.
pub open spec fn has_known_parts(field: FieldView) -> bool {
    match field.field_type {
        FieldTypeView::Object(fields) => fields.len() > 0,
        FieldTypeView::Array(_) => true,
        FieldTypeView::Mapping(value) => value is Some,
        _ => false,
    }
}

/// Whether a field lists the values that it can have.
pub open spec fn has_choices(field: FieldView) -> bool {
    field.enum_values matches Some(values) && values.len() > 0
}

/// A default that says something is what is written for a field, whatever its type and its choices.
pub proof fn lemma_default_is_written(field: FieldView, full: bool, minimal: bool)
    requires
        has_default(field),
    ensures
        field_node(field, full, minimal) == NodeView::Scalar(formatted(field.default->0)),
{
}

/// Without such a default the first of the choices is written, whatever the type of the field.
pub proof fn lemma_first_choice_is_written(field: FieldView, full: bool, minimal: bool)
    requires
        !has_default(field),
        has_choices(field),
    ensures
        field_node(field, full, minimal) == NodeView::Scalar(formatted(field.enum_values->0[0])),
{
}

/// Without a default and without choices a placeholder for the type is written.
pub proof fn lemma_placeholder_is_written(field: FieldView, full: bool, minimal: bool)
    requires
        !has_default(field),
        !has_choices(field),
    ensures
        match field.field_type {
            FieldTypeView::String => field_node(field, full, minimal) == NodeView::Scalar(
                if field.format == Some("date-time"@) {
                    "\"2025-01-01T00:00:00Z\""@
                } else {
                    "\"\""@
                },
            ),
            FieldTypeView::Integer => field_node(field, full, minimal) == NodeView::Scalar("0"@),
            FieldTypeView::Number => field_node(field, full, minimal) == NodeView::Scalar("0.0"@),
            FieldTypeView::Boolean => field_node(field, full, minimal) == NodeView::Scalar(
                "false"@,
            ),
            FieldTypeView::Any => field_node(field, full, minimal) == NodeView::Scalar("null"@),
            FieldTypeView::Mapping(_) => field_node(field, full, minimal) == NodeView::Mapping,
            FieldTypeView::Array(item) => match field_node(field, full, minimal) {
                NodeView::Array(items) => items.len() == 1 && items[0] == field_node(
                    *item,
                    full,
                    minimal,
                ),
                _ => false,
            },
            FieldTypeView::Object(fields) => if fields.len() == 0 {
                field_node(field, full, minimal) == NodeView::Scalar("{}"@)
            } else {
                field_node(field, full, minimal) is Object
            },
        },
{
}

/// The names of fields that are commonly needed.
pub open spec fn common_names() -> Seq<Seq<char>> {
    seq![
        "name"@, "image"@, "containerPort"@, "port"@, "protocol"@, "replicas"@, "selector"@,
        "template"@, "containers"@, "ports"@, "env"@, "resources"@, "labels"@, "annotations"@,
        "type"@, "data"@, "stringData"@, "value"@, "valueFrom"@, "limits"@, "requests"@, "claims"@,
        "request"@, "command"@, "args"@, "volumeMounts"@, "mountPath"@, "volumes"@, "rules"@,
        "subjects"@, "roleRef"@, "spec"@, "podSelector"@, "policyTypes"@, "ingress"@, "egress"@,
        "from"@, "to"@, "matchLabels"@, "matchExpressions"@, "ingressClassName"@, "tls"@,
        "accessModes"@, "storageClassName"@, "serviceName"@, "volumeClaimTemplates"@, "schedule"@,
        "jobTemplate"@, "minReplicas"@, "maxReplicas"@, "metrics"@,
    ]
}

/// A field is commonly needed if and only if its name is one of those.
pub proof fn lemma_common_names(name: Seq<char>)
    ensures
        common_name(name) <==> common_names().contains(name),
{
    let all = common_names();
    assert(all[0] == "name"@);
    assert(all[1] == "image"@);
    assert(all[2] == "containerPort"@);
    assert(all[3] == "port"@);
    assert(all[4] == "protocol"@);
    assert(all[5] == "replicas"@);
    assert(all[6] == "selector"@);
    assert(all[7] == "template"@);
    assert(all[8] == "containers"@);
    assert(all[9] == "ports"@);
    assert(all[10] == "env"@);
    assert(all[11] == "resources"@);
    assert(all[12] == "labels"@);
    assert(all[13] == "annotations"@);
    assert(all[14] == "type"@);
    assert(all[15] == "data"@);
    assert(all[16] == "stringData"@);
    assert(all[17] == "value"@);
    assert(all[18] == "valueFrom"@);
    assert(all[19] == "limits"@);
    assert(all[20] == "requests"@);
    assert(all[21] == "claims"@);
    assert(all[22] == "request"@);
    assert(all[23] == "command"@);
    assert(all[24] == "args"@);
    assert(all[25] == "volumeMounts"@);
    assert(all[26] == "mountPath"@);
    assert(all[27] == "volumes"@);
    assert(all[28] == "rules"@);
    assert(all[29] == "subjects"@);
    assert(all[30] == "roleRef"@);
    assert(all[31] == "spec"@);
    assert(all[32] == "podSelector"@);
    assert(all[33] == "policyTypes"@);
    assert(all[34] == "ingress"@);
    assert(all[35] == "egress"@);
    assert(all[36] == "from"@);
    assert(all[37] == "to"@);
    assert(all[38] == "matchLabels"@);
    assert(all[39] == "matchExpressions"@);
    assert(all[40] == "ingressClassName"@);
    assert(all[41] == "tls"@);
    assert(all[42] == "accessModes"@);
    assert(all[43] == "storageClassName"@);
    assert(all[44] == "serviceName"@);
    assert(all[45] == "volumeClaimTemplates"@);
    assert(all[46] == "schedule"@);
    assert(all[47] == "jobTemplate"@);
    assert(all[48] == "minReplicas"@);
    assert(all[49] == "maxReplicas"@);
    assert(all[50] == "metrics"@);
    if all.contains(name) {
        let k = choose|k: int| 0 <= k < all.len() && all[k] == name;
        assert(0 <= k < 51);
    }
}

/// Whether a field of an object is wanted: with `minimal` if it is required, else if it is required
/// or commonly needed, or in any case with `full`.
pub open spec fn is_wanted(field: FieldView, full: bool, minimal: bool) -> bool {
    if minimal {
        field.required
    } else {
        full || field.required || common_names().contains(field.name)
    }
}

/// Whether the field at a position of an object is selected: it is wanted, or none of them is.
pub open spec fn is_selected(fields: Seq<FieldView>, i: int, full: bool, minimal: bool) -> bool {
    is_wanted(fields[i], full, minimal) || forall|j: int|
        0 <= j < fields.len() ==> !is_wanted(#[trigger] fields[j], full, minimal)
}

/// The comment on a field: the first sentence of its description, if it has one.
pub open spec fn comment_on(field: FieldView) -> Option<Seq<char>> {
    match field.description {
        Some(d) => Some(sentence_of(d)),
        None => None,
    }
}

proof fn lemma_passing_ascending(fields: Seq<FieldView>, minimal: bool, full: bool)
    ensures
        ascending(passing(fields, minimal, full), fields.len() as int),
    decreases fields.len(),
{
    if fields.len() > 0 {
        let rest = fields.drop_last();
        lemma_passing_ascending(rest, minimal, full);
        lemma_ascending_push(passing(rest, minimal, full), fields.len() - 1);
    }
}

proof fn lemma_shown_positions(fields: Seq<FieldView>, full: bool, minimal: bool)
    ensures
        ascending(shown(fields, minimal, full), fields.len() as int),
        forall|i: int|
            0 <= i < fields.len() ==> (#[trigger] shown(fields, minimal, full).contains(i)
                <==> is_selected(fields, i, full, minimal)),
{
    let order = shown(fields, minimal, full);
    let some = passing(fields, minimal, full);
    lemma_passing(fields, minimal, full);
    lemma_passing_ascending(fields, minimal, full);
    assert forall|i: int| 0 <= i < fields.len() implies passes(#[trigger] fields[i], minimal, full)
        == is_wanted(fields[i], full, minimal) by {
        lemma_common_names(fields[i].name);
    }
    if some.len() == 0 {
        assert forall|i: int| 0 <= i < fields.len() implies order.contains(i) by {
            assert(order[i] == i);
        }
        assert forall|j: int| 0 <= j < fields.len() implies !is_wanted(
            #[trigger] fields[j],
            full,
            minimal,
        ) by {
            if passes(fields[j], minimal, full) {
                assert(some.contains(j));
            }
        }
    } else {
        assert(passes(fields[some[0]], minimal, full));
        assert(is_wanted(fields[some[0]], full, minimal));
        assert forall|i: int| 0 <= i < fields.len() implies (order.contains(i) <==> is_wanted(
            #[trigger] fields[i],
            full,
            minimal,
        )) by {
            if order.contains(i) {
                let k = choose|k: int| 0 <= k < order.len() && order[k] == i;
                assert(passes(fields[some[k]], minimal, full));
            }
        }
    }
}

/// An object is written with those of its fields that are wanted, or with all of them if none is,
/// in their order: each with its name, its own node and its comment. Returns their positions.
pub proof fn lemma_wanted_fields_are_written(
    field: FieldView,
    fields: Seq<FieldView>,
    full: bool,
    minimal: bool,
) -> (order: Seq<int>)
    requires
        !has_default(field),
        !has_choices(field),
        field.field_type == FieldTypeView::Object(fields),
        fields.len() > 0,
    ensures
        ascending(order, fields.len() as int),
        forall|i: int|
            0 <= i < fields.len() ==> (#[trigger] order.contains(i) <==> is_selected(
                fields,
                i,
                full,
                minimal,
            )),
        match field_node(field, full, minimal) {
            NodeView::Object(entries) => {
                &&& entries.len() == order.len()
                &&& forall|k: int|
                    0 <= k < entries.len() ==> #[trigger] entries[k] == (
                        fields[order[k]].name,
                        field_node(fields[order[k]], full, minimal),
                        comment_on(fields[order[k]]),
                    )
            },
            _ => false,
        },
{
    let order = shown(fields, minimal, full);
    lemma_shown_positions(fields, full, minimal);
    let entries = object_entries(fields, full, minimal);
    assert(field_node(field, full, minimal) == NodeView::Object(entries));
    assert forall|k: int| 0 <= k < entries.len() implies #[trigger] entries[k] == (
        fields[order[k]].name,
        field_node(fields[order[k]], full, minimal),
        comment_on(fields[order[k]]),
    ) by {
        assert(0 <= order[k] < fields.len());
        assert(described(fields[order[k]]) == comment_on(fields[order[k]]));
    }
    order
}

/// Of the fields of an object those are selected that are wanted, or all of them if none is, in their
/// order. Returns their positions.
pub proof fn lemma_wanted_fields_are_selected(
    fields: Seq<FieldView>,
    full: bool,
    minimal: bool,
) -> (order: Seq<int>)
    ensures
        ascending(order, fields.len() as int),
        forall|i: int|
            0 <= i < fields.len() ==> (#[trigger] order.contains(i) <==> is_selected(
                fields,
                i,
                full,
                minimal,
            )),
        fields_at(fields, shown(fields, minimal, full)).len() == order.len(),
        forall|k: int|
            0 <= k < order.len() ==> #[trigger] fields_at(fields, shown(fields, minimal, full))[k]
                == fields[order[k]],
{
    let order = shown(fields, minimal, full);
    lemma_shown_positions(fields, full, minimal);
    order
}

/// Whether a field of the resource has its place in the document: apiVersion, kind and metadata are
/// written apart, the status is not written, and with `minimal` required fields alone are.
pub open spec fn has_place(field: FieldView, minimal: bool) -> bool {
    &&& field.name != "apiVersion"@
    &&& field.name != "kind"@
    &&& field.name != "metadata"@
    &&& field.name != "status"@
    &&& minimal ==> field.required
}

/// The fields of a resource that are written are those that have their place, in their order.
pub proof fn lemma_rendered_in_order(fields: Seq<FieldView>, minimal: bool) -> (kept: Seq<int>)
    ensures
        ascending(kept, fields.len() as int),
        fields_rendered(fields, minimal).len() == kept.len(),
        forall|k: int|
            0 <= k < kept.len() ==> #[trigger] fields_rendered(fields, minimal)[k]
                == fields[kept[k]],
        forall|i: int|
            0 <= i < fields.len() ==> (kept.contains(i) <==> has_place(
                #[trigger] fields[i],
                minimal,
            )),
    decreases fields.len(),
{
    if fields.len() == 0 {
        Seq::empty()
    } else {
        let n = fields.len() - 1;
        let rest = fields.drop_last();
        let before = lemma_rendered_in_order(rest, minimal);
        lemma_ascending_push(before, n);
        let kept = if has_place(fields[n], minimal) {
            before.push(n)
        } else {
            before
        };
        assert forall|k: int| 0 <= k < kept.len() implies #[trigger] fields_rendered(
            fields,
            minimal,
        )[k] == fields[kept[k]] by {
            if k < before.len() {
                assert(fields_rendered(fields, minimal)[k] == fields_rendered(rest, minimal)[k]);
                assert(fields[before[k]] == rest[before[k]]);
            }
        }
        assert forall|i: int| 0 <= i < fields.len() implies (kept.contains(i) <==> has_place(
            #[trigger] fields[i],
            minimal,
        )) by {
            if i < n {
                assert(rest[i] == fields[i]);
            } else if before.contains(n) {
                let k = choose|k: int| 0 <= k < before.len() && before[k] == n;
                assert(before[k] < n);
            }
        }
        kept
    }
}

/// The metadata of a resource: the name that was given, or one to be replaced, and for a namespaced
/// resource the namespace that was given, or the default one.
pub proof fn lemma_metadata(resolved: ResolvedView, args: ArgsView)
    ensures
        ({
            let metadata = metadata_of(resolved, args);
            let name = match args.name {
                Some(n) => n,
                None => "my-resource"@,
            };
            let namespace = match args.namespace {
                Some(n) => n,
                None => "default"@,
            };
            &&& metadata.len() == (if resolved.namespaced {
                2int
            } else {
                1
            })
            &&& metadata[0] == ("name"@, NodeView::Scalar(name), None::<Seq<char>>)
            &&& resolved.namespaced ==> metadata[1] == (
                "namespace"@,
                NodeView::Scalar(namespace),
                None::<Seq<char>>,
            )
        }),
{
}

/// A document begins with the API version, the kind and the metadata. Then come the fields of the
/// resource that have their place, in their order, each with its comment: what was entered for it,
/// or else its own node. Returns their positions.
pub proof fn lemma_document_in_order(
    resolved: ResolvedView,
    schema: ResourceSchemaView,
    args: ArgsView,
    values: Option<Seq<Member>>,
) -> (kept: Seq<int>)
    ensures
        ascending(kept, schema.fields.len() as int),
        forall|i: int|
            0 <= i < schema.fields.len() ==> (kept.contains(i) <==> has_place(
                #[trigger] schema.fields[i],
                args.minimal,
            )),
        ({
            let entries = document_entries(resolved, schema, args, values);
            let api_version = if resolved.group.len() == 0 {
                resolved.version
            } else {
                resolved.group + "/"@ + resolved.version
            };
            &&& entries.len() == 3 + kept.len()
            &&& entries[0] == ("apiVersion"@, NodeView::Scalar(api_version), None::<Seq<char>>)
            &&& entries[1] == ("kind"@, NodeView::Scalar(resolved.kind), None::<Seq<char>>)
            &&& entries[2] == (
                "metadata"@,
                NodeView::Object(metadata_of(resolved, args)),
                None::<Seq<char>>,
            )
            &&& forall|k: int|
                3 <= k < entries.len() ==> #[trigger] entries[k] == ({
                    let field = schema.fields[kept[k - 3]];
                    let entered = match values {
                        Some(members) => lookup(members, field.name),
                        None => None,
                    };
                    (
                        field.name,
                        match entered {
                            Some(v) => value_node(v),
                            None => field_node(field, args.full, args.minimal),
                        },
                        comment_on(field),
                    )
                })
        }),
{
    let kept = lemma_rendered_in_order(schema.fields, args.minimal);
    let fields = fields_rendered(schema.fields, args.minimal);
    let entries = document_entries(resolved, schema, args, values);
    assert forall|k: int| 3 <= k < entries.len() implies #[trigger] entries[k] == field_entry(
        schema.fields[kept[k - 3]],
        args,
        values,
    ) by {
        assert(fields[k - 3] == schema.fields[kept[k - 3]]);
    }
    kept
}

/// The text of a document is a line of three dashes and the lines of its entries, with comments
/// unless they are not wanted.
pub proof fn lemma_document_text(
    resolved: ResolvedView,
    schema: ResourceSchemaView,
    args: ArgsView,
    values: Option<Seq<Member>>,
)
    ensures
        document(resolved, schema, args, values) == "---\n"@ + joined(
            document_lines(
                NodeView::Object(document_entries(resolved, schema, args, values)),
                !args.no_comments,
            ),
            "\n"@,
        ),
{
}

/// Nothing is asked or shown unless interactive mode is on. Then the fields that have their place are
/// asked for, the required ones or with `full` all of them, and the document has what was entered.
pub proof fn lemma_asks_in_interactive_mode(
    resolved: ResolvedView,
    schema: ResourceSchemaView,
    args: ArgsView,
    answers: Seq<AnswerView>,
)
    ensures
        ({
            let (notices, generated) = generation(resolved, schema, args, answers);
            if args.interactive {
                let (told, progress) = dialogue(
                    fields_rendered(schema.fields, args.minimal),
                    !args.full,
                    answers,
                );
                &&& notices == told
                &&& match progress {
                    ProgressView::Ask(question) => generated == GeneratedView::Ask(question),
                    ProgressView::Done(values) => generated == GeneratedView::Yaml(
                        document(resolved, schema, args, Some(values)),
                    ),
                    ProgressView::Misfit => generated == GeneratedView::Misfit,
                }
            } else {
                &&& notices.len() == 0
                &&& generated == GeneratedView::Yaml(document(resolved, schema, args, None))
            }
        }),
{
}

/// What was entered is written as it is: an object with its members in their order, a list with its
/// items in their order, anything else as a scalar, and without comments.
pub proof fn lemma_entered_is_written(value: JsonView)
    ensures
        match value {
            JsonView::Object(members) => match value_node(value) {
                NodeView::Object(entries) => {
                    &&& entries.len() == members.len()
                    &&& forall|i: int|
                        0 <= i < members.len() ==> #[trigger] entries[i] == (
                            members[i].0,
                            value_node(members[i].1),
                            None::<Seq<char>>,
                        )
                },
                _ => false,
            },
            JsonView::Array(items) => match value_node(value) {
                NodeView::Array(nodes) => {
                    &&& nodes.len() == items.len()
                    &&& forall|i: int|
                        0 <= i < items.len() ==> #[trigger] nodes[i] == value_node(items[i])
                },
                _ => false,
            },
            _ => value_node(value) == NodeView::Scalar(formatted(value)),
        },
{
}

/// Values are written in the notation of JSON. Of a text only the quotes are escaped, and what
/// `serde_json` cannot hold is written as null.
pub proof fn lemma_formatted(value: JsonView)
    ensures
        match value {
            JsonView::Null => formatted(value) == "null"@,
            JsonView::Bool(b) => formatted(value) == (if b {
                "true"@
            } else {
                "false"@
            }),
            JsonView::Number(NumberView::Int(n)) => formatted(value) == signed_decimal(n),
            JsonView::Number(NumberView::Float(text)) => formatted(value) == text,
            JsonView::String(s) => formatted(value) == "\""@ + quotes_escaped(s) + "\""@,
            JsonView::Array(items) => formatted(value) == (if items.len() == 0 {
                "[]"@
            } else {
                match canonical(value) {
                    Some(c) => compact_text(c),
                    None => "null"@,
                }
            }),
            JsonView::Object(members) => formatted(value) == (if members.len() == 0 {
                "{}"@
            } else {
                match canonical(value) {
                    Some(c) => compact_text(c),
                    None => "null"@,
                }
            }),
        },
{
}

proof fn lemma_one_at(text: Seq<char>, i: int)
    ensures
        occurs_at(text, "\n"@, i) <==> 0 <= i < text.len() && text[i] == '\n',
{
    reveal_strlit("\n");
    if 0 <= i < text.len() {
        assert(text.subrange(i, i + 1)[0] == text[i]);
        if text[i] == '\n' {
            assert(text.subrange(i, i + 1) =~= "\n"@);
        }
    }
}

proof fn lemma_two_at(text: Seq<char>, i: int)
    ensures
        occurs_at(text, ". "@, i) <==> 0 <= i < text.len() - 1 && text[i] == '.' && text[i + 1]
            == ' ',
{
    reveal_strlit(". ");
    if 0 <= i < text.len() - 1 {
        let two = text.subrange(i, i + 2);
        assert(two[0] == text[i] && two[1] == text[i + 1]);
        assert(". "@[0] == '.' && ". "@[1] == ' ');
        if text[i] == '.' && text[i + 1] == ' ' {
            assert(two =~= ". "@);
        }
    }
}

proof fn lemma_least_occurrence(s: Seq<char>, t: Seq<char>, k: int) -> (i: int)
    requires
        occurs_at(s, t, k),
    ensures
        0 <= i <= k,
        occurs_at(s, t, i),
        first_occurrence(s, t) == Some(i),
        forall|j: int| 0 <= j < i ==> !occurs_at(s, t, j),
    decreases k,
{
    if exists|j: int| 0 <= j < k && occurs_at(s, t, j) {
        let j = choose|j: int| 0 <= j < k && occurs_at(s, t, j);
        lemma_least_occurrence(s, t, j)
    } else {
        lemma_first_occurrence(s, t, k);
        k
    }
}

/// The first sentence of a description is its beginning, of no more than 120 characters, with no line
/// break and no end of a sentence inside of it. It is as long as that allows: what follows is a line
/// break, or a space after a full stop.
pub proof fn lemma_first_sentence(desc: Seq<char>)
    ensures
        ({
            let s = sentence_of(desc);
            &&& s.is_prefix_of(desc)
            &&& s.len() <= 120
            &&& forall|i: int| 0 <= i < s.len() ==> #[trigger] s[i] != '\n'
            &&& forall|i: int, j: int|
                0 <= i && j == i + 1 && j < s.len() ==> !(#[trigger] s[i] == '.' && #[trigger] s[j]
                    == ' ')
            &&& s.len() < 120 && s.len() < desc.len() ==> {
                ||| desc[s.len() as int] == '\n'
                ||| s.len() > 0 && s.last() == '.' && desc[s.len() as int] == ' '
            }
        }),
{
    let line = line_of(desc);
    let end = sentence_end(line);
    let s = sentence_of(desc);
    lemma_no_occurrence(desc, "\n"@);
    if occurs(desc, "\n"@) {
        let k = choose|k: int| occurs_at(desc, "\n"@, k);
        let i = lemma_least_occurrence(desc, "\n"@, k);
        lemma_one_at(desc, i);
        assert forall|j: int| 0 <= j < i implies #[trigger] desc[j] != '\n' by {
            lemma_one_at(desc, j);
        }
    } else {
        assert forall|j: int| 0 <= j < desc.len() implies #[trigger] desc[j] != '\n' by {
            lemma_one_at(desc, j);
        }
    }
    lemma_no_occurrence(line, ". "@);
    if occurs(line, ". "@) {
        let k = choose|k: int| occurs_at(line, ". "@, k);
        let i = lemma_least_occurrence(line, ". "@, k);
        lemma_two_at(line, i);
        assert forall|j: int| 0 <= j < i implies !(#[trigger] line[j] == '.' && line[j + 1]
            == ' ') by {
            lemma_two_at(line, j);
        }
    } else {
        assert forall|j: int| 0 <= j < line.len() - 1 implies !(#[trigger] line[j] == '.' && line[j
            + 1] == ' ') by {
            lemma_two_at(line, j);
        }
    }
    assert(s =~= desc.take(s.len() as int));
    assert forall|i: int| 0 <= i < s.len() implies #[trigger] s[i] != '\n' by {
        assert(s[i] == desc[i]);
    }
    assert forall|i: int, j: int| 0 <= i && j == i + 1 && j < s.len() implies !(#[trigger] s[i]
        == '.' && #[trigger] s[j] == ' ') by {
        assert(s[i] == line[i] && s[j] == line[i + 1]);
    }
}

}
