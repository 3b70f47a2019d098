//! Which resources are found in a cluster, and which of them an input means.

use vstd::prelude::*;

use crate::discovery::{
    address, answers, beginning, lemma_entry_kept, lemma_resolves_to_first, lemma_with_entries,
    not_found, received, resolution, resolve_error_message, resolves_at, seen, similar, stage_from,
    suggestion, suggestions, wanted, with_entries, DiscoveredView, DiscoveryView, EntryView,
    GroupView, OutcomeView, ReplyView, ResolvedView, Stage,
};
use crate::text::{
    decimal, joined, lemma_first_occurrence, lemma_no_occurrence, lowercase, occurs, occurs_at,
};

verus! {

/// Whether a resource goes by a name in lower case: by its plural, its kind or its singular.
pub open spec fn is_called(resource: DiscoveredView, name: Seq<char>) -> bool {
    ||| lowercase(resource.entry.name) == name
    ||| lowercase(resource.entry.kind) == name
    ||| lowercase(resource.entry.singular_name) == name
}

/// Whether a resource goes by a short name in lower case.
pub open spec fn is_called_for_short(resource: DiscoveredView, name: Seq<char>) -> bool {
    exists|k: int|
        0 <= k < resource.entry.short_names.len() && lowercase(
            #[trigger] resource.entry.short_names[k],
        ) == name
}

/// Whether an input means a resource: in any case, by one of its names or short names, or by one of
/// its names, a dot and its group. A part of another resource, which has a slash in its name, is
/// never meant.
pub open spec fn means(input: Seq<char>, resource: DiscoveredView) -> bool {
    &&& !occurs(resource.entry.name, "/"@)
    &&& if occurs(lowercase(input), "."@) {
        exists|name: Seq<char>| #[trigger]
            splits(lowercase(input), name, lowercase(resource.group)) && is_called(resource, name)
    } else {
        is_called(resource, lowercase(input)) || is_called_for_short(resource, lowercase(input))
    }
}

/// Whether a text is a name without a dot, a dot and a group.
pub open spec fn splits(text: Seq<char>, name: Seq<char>, group: Seq<char>) -> bool {
    text == name + seq!['.'] + group && forall|i: int|
        0 <= i < name.len() ==> #[trigger] name[i] != '.'
}

/// Whether the type is that of the resource, as the API server lists it.
pub open spec fn is_type_of(found: ResolvedView, resource: DiscoveredView) -> bool {
    &&& found.kind == resource.entry.kind
    &&& found.plural == resource.entry.name
    &&& found.namespaced == resource.entry.namespaced
    &&& found.group == resource.group
    &&& found.version == resource.version
}

proof fn lemma_dot(text: Seq<char>, i: int)
    ensures
        occurs_at(text, "."@, i) <==> 0 <= i < text.len() && text[i] == '.',
{
    reveal_strlit(".");
    if 0 <= i < text.len() {
        assert(text.subrange(i, i + 1)[0] == text[i]);
        if text[i] == '.' {
            assert(text.subrange(i, i + 1) =~= "."@);
        }
    }
}

proof fn lemma_splits(text: Seq<char>, name: Seq<char>, group: Seq<char>)
    requires
        splits(text, name, group),
    ensures
        crate::text::first_occurrence(text, "."@) == Some(name.len() as int),
        text.take(name.len() as int) == name,
        text.skip(name.len() as int + 1) == group,
{
    lemma_dot(text, name.len() as int);
    assert forall|j: int| 0 <= j < name.len() implies !occurs_at(text, "."@, j) by {
        lemma_dot(text, j);
        assert(text[j] == name[j]);
    }
    lemma_first_occurrence(text, "."@, name.len() as int);
    assert(text.take(name.len() as int) =~= name);
    assert(text.skip(name.len() as int + 1) =~= group);
}

proof fn lemma_means(input: Seq<char>, resource: DiscoveredView)
    ensures
        answers(resource, wanted(input)) == means(input, resource),
{
    let lower = lowercase(input);
    lemma_no_occurrence(lower, "."@);
    if occurs(lower, "."@) {
        let i = crate::text::first_occurrence(lower, "."@)->0;
        lemma_first_dot(lower);
        let name = lower.take(i);
        let group = lower.skip(i + 1);
        assert(lower =~= name + seq!['.'] + group);
        assert(splits(lower, name, group));
        assert(wanted(input).name == name && wanted(input).group == Some(group));
        if means(input, resource) {
            let other = choose|other: Seq<char>| #[trigger]
                splits(lower, other, lowercase(resource.group)) && is_called(resource, other);
            lemma_splits(lower, other, lowercase(resource.group));
        }
        if answers(resource, wanted(input)) {
            assert(splits(lower, name, lowercase(resource.group)));
        }
    } else {
        assert(wanted(input).name == lower && wanted(input).group is None);
    }
}

proof fn lemma_first_dot(text: Seq<char>)
    requires
        occurs(text, "."@),
    ensures
        crate::text::first_occurrence(text, "."@) matches Some(i) && 0 <= i < text.len() && text[i]
            == '.' && forall|j: int| 0 <= j < i ==> #[trigger] text[j] != '.',
{
    let k = choose|k: int| occurs_at(text, "."@, k);
    lemma_dot(text, k);
    let i = lemma_least_dot(text, k);
    lemma_dot(text, i);
    assert forall|j: int| 0 <= j < i implies !occurs_at(text, "."@, j) by {
        lemma_dot(text, j);
    }
    lemma_first_occurrence(text, "."@, i);
}

proof fn lemma_least_dot(text: Seq<char>, k: int) -> (i: int)
    requires
        0 <= k < text.len(),
        text[k] == '.',
    ensures
        0 <= i <= k,
        text[i] == '.',
        forall|j: int| 0 <= j < i ==> #[trigger] text[j] != '.',
    decreases k,
{
    if exists|j: int| 0 <= j < k && #[trigger] text[j] == '.' {
        let j = choose|j: int| 0 <= j < k && #[trigger] text[j] == '.';
        lemma_least_dot(text, j)
    } else {
        k
    }
}

/// An input resolves to the type of the first resource that it means: its kind, its plural, its
/// group, its version and whether it is namespaced are those that the API server lists. It does not
/// resolve if and only if it means none.
pub proof fn lemma_input_resolves(resources: Seq<DiscoveredView>, input: Seq<char>)
    ensures
        match resolution(resources, wanted(input)) {
            Some(found) => exists|i: int|
                #![trigger resources[i]]
                0 <= i < resources.len() && means(input, resources[i]) && is_type_of(
                    found,
                    resources[i],
                ) && forall|j: int| 0 <= j < i ==> !means(input, #[trigger] resources[j]),
            None => forall|i: int|
                0 <= i < resources.len() ==> !means(input, #[trigger] resources[i]),
        },
{
    let w = wanted(input);
    lemma_resolves_to_first(resources, w);
    assert forall|i: int| 0 <= i < resources.len() implies answers(#[trigger] resources[i], w)
        == means(input, resources[i]) by {
        lemma_means(input, resources[i]);
    }
    match resolution(resources, w) {
        Some(found) => {
            let i = choose|i: int| #[trigger]
                resolves_at(resources, w, i) && found == crate::discovery::resolved(resources[i])
                    && !occurs(found.plural, "/"@);
            assert(means(input, resources[i]));
            assert forall|j: int| 0 <= j < i implies !means(input, #[trigger] resources[j]) by {
                assert(!answers(resources[j], w));
            }
        },
        None => {},
    }
}

/// Whether a name resembles an input, both in lower case: one of them is part of the other.
pub open spec fn alike(name: Seq<char>, input: Seq<char>) -> bool {
    occurs(lowercase(name), lowercase(input)) || occurs(lowercase(input), lowercase(name))
}

/// A resource is suggested for an input if and only if one of its names or short names resembles it
/// and it is no part of another resource. Of a list the suggestions are those for its two parts, one
/// after the other.
pub proof fn lemma_suggested_if_alike(
    one: Seq<DiscoveredView>,
    other: Seq<DiscoveredView>,
    resource: DiscoveredView,
    input: Seq<char>,
)
    ensures
        suggestions(one + other, lowercase(input)) == suggestions(one, lowercase(input))
            + suggestions(other, lowercase(input)),
        suggestions(Seq::empty(), lowercase(input)).len() == 0,
        ({
            let e = resource.entry;
            let found = suggestions(seq![resource], lowercase(input));
            if !occurs(e.name, "/"@) && (alike(e.name, input) || alike(e.kind, input) || alike(
                e.singular_name,
                input,
            ) || exists|k: int|
                0 <= k < e.short_names.len() && alike(#[trigger] e.short_names[k], input)) {
                found == seq![
                    "  "@ + e.name + " (kind: "@ + e.kind + ", shortNames: ["@ + joined(
                        e.short_names,
                        ", "@,
                    ) + "])"@,
                ]
            } else {
                found.len() == 0
            }
        }),
    decreases other.len(),
{
    let lower = lowercase(input);
    let e = resource.entry;
    assert(seq![resource].drop_last() =~= Seq::empty());
    assert(suggestions(seq![resource].drop_last(), lower) =~= Seq::empty());
    if exists|k: int| 0 <= k < e.short_names.len() && alike(#[trigger] e.short_names[k], input) {
        let k = choose|k: int| 0 <= k < e.short_names.len() && alike(#[trigger] e.short_names[k], input);
        assert(crate::discovery::similar_names(e.short_names[k], lower));
    }
    if similar(e, lower) {
        assert(suggestions(seq![resource], lower) =~= seq![suggestion(e)]);
        if !alike(e.name, input) && !alike(e.kind, input) && !alike(e.singular_name, input) {
            let k = choose|k: int|
                0 <= k < e.short_names.len() && crate::discovery::similar_names(
                    #[trigger] e.short_names[k],
                    lower,
                );
            assert(alike(e.short_names[k], input));
        }
    }
    if other.len() == 0 {
        assert(one + other =~= one);
        assert(suggestions(one, lower) + suggestions(other, lower) =~= suggestions(one, lower));
    } else {
        assert((one + other).drop_last() =~= one + other.drop_last());
        assert((one + other).last() == other.last());
        lemma_suggested_if_alike(one, other.drop_last(), resource, input);
        assert(suggestions(one + other, lower) =~= suggestions(one, lower) + suggestions(
            other,
            lower,
        ));
    }
}

/// The error for an input that means nothing repeats the input. It lists what is suggested, or says
/// how many resources there are if nothing is.
pub proof fn lemma_error_tells(resources: Seq<DiscoveredView>, input: Seq<char>)
    ensures
        resolve_error_message(not_found(resources, input)) == (if suggestions(
            resources,
            lowercase(input),
        ).len() == 0 {
            "Could not find resource '"@ + input + "' in the cluster ("@ + decimal(resources.len())
                + " resources discovered). Make sure the CRD is installed and you have access."@
        } else {
            "Could not find resource '"@ + input
                + "' in the cluster, but found similar resources:\n"@ + joined(
                suggestions(resources, lowercase(input)),
                "\n"@,
            ) + "\nUse the full resource name or a listed shortName."@
        }),
{
}

/// The core API is listed first and then the groups, each under its address. What the core API lists
/// is found in that order, without a group and as version v1.
pub proof fn lemma_core_and_groups_first(core: Seq<EntryView>, groups: Seq<GroupView>)
    ensures
        address(beginning()) == Some("/api/v1"@),
        beginning().found.len() == 0,
        ({
            let (one, first) = received(beginning(), ReplyView::Resources(core));
            &&& first is Going
            &&& address(one) == Some("/apis"@)
            &&& one.found.len() == core.len()
            &&& forall|i: int|
                0 <= i < core.len() ==> (#[trigger] one.found[i]).entry == core[i]
                    && one.found[i].group.len() == 0 && one.found[i].version == "v1"@
            &&& received(one, ReplyView::Groups(groups)).0.found == one.found
            &&& received(one, ReplyView::Groups(groups)).0.groups == groups
            &&& received(one, ReplyView::Groups(groups)).0.start == core.len()
            &&& received(one, ReplyView::Groups(groups)).1 is Going
        }),
{
}

/// Whether the resources of this version of a group are to be listed next.
pub open spec fn lists_version(d: DiscoveryView, group: int, version: int) -> bool {
    &&& 0 <= group < d.groups.len()
    &&& 0 <= version < d.groups[group].versions.len()
    &&& d.stage matches Stage::Version { group: g, version: v } && g == group && v == version
    &&& d.start <= d.found.len()
}

/// What a version of a group lists is found with that group and version, unless the group has it
/// already; nothing of what was found before is lost. The version is listed under its own address.
pub proof fn lemma_version_found(
    d: DiscoveryView,
    group: int,
    version: int,
    entries: Seq<EntryView>,
)
    requires
        lists_version(d, group, version),
    ensures
        address(d) == Some("/apis/"@ + d.groups[group].versions[version].group_version),
        received(d, ReplyView::Resources(entries)).1 is Going,
        ({
            let now = received(d, ReplyView::Resources(entries)).0.found;
            &&& d.found.is_prefix_of(now)
            &&& forall|i: int|
                d.found.len() <= i < now.len() ==> entries.contains((#[trigger] now[i]).entry)
                    && now[i].group == d.groups[group].name && now[i].version
                    == d.groups[group].versions[version].version
            &&& forall|k: int|
                0 <= k < entries.len() ==> seen(now, d.start, (#[trigger] entries[k]).name)
            &&& forall|i: int, j: int|
                d.start <= i < j < now.len() && d.found.len() <= j ==> (#[trigger] now[i]).entry.name
                    != (#[trigger] now[j]).entry.name
        }),
{
    let g = d.groups[group].name;
    let v = d.groups[group].versions[version].version;
    let now = with_entries(d.found, d.start, g, v, entries);
    assert(received(d, ReplyView::Resources(entries)).0.found == now);
    lemma_with_entries(d.found, d.start, g, v, entries);
    lemma_added(d.found, d.start, g, v, entries);
    assert forall|k: int| 0 <= k < entries.len() implies seen(
        now,
        d.start,
        (#[trigger] entries[k]).name,
    ) by {
        assert(crate::discovery::names_one(entries, entries[k].name));
    }
}

proof fn lemma_added(
    found: Seq<DiscoveredView>,
    start: nat,
    group: Seq<char>,
    version: Seq<char>,
    entries: Seq<EntryView>,
)
    requires
        start <= found.len(),
    ensures
        ({
            let now = with_entries(found, start, group, version, entries);
            &&& now.len() >= found.len()
            &&& forall|i: int|
                found.len() <= i < now.len() ==> entries.contains((#[trigger] now[i]).entry)
                    && now[i].group == group && now[i].version == version
            &&& forall|i: int, j: int|
                start <= i < j < now.len() && found.len() <= j ==> (#[trigger] now[i]).entry.name != (
                #[trigger] now[j]).entry.name
        }),
    decreases entries.len(),
{
    if entries.len() > 0 {
        let rest = entries.drop_last();
        let last = entries.last();
        let before = with_entries(found, start, group, version, rest);
        let now = with_entries(found, start, group, version, entries);
        lemma_added(found, start, group, version, rest);
        assert forall|i: int| found.len() <= i < now.len() implies entries.contains(
            (#[trigger] now[i]).entry,
        ) && now[i].group == group && now[i].version == version by {
            if i < before.len() {
                assert(now[i] == before[i]);
                assert(rest.contains(before[i].entry));
                let k = choose|k: int| 0 <= k < rest.len() && rest[k] == before[i].entry;
                assert(entries[k] == rest[k]);
            } else {
                assert(entries[entries.len() - 1] == last);
            }
        }
        assert forall|i: int, j: int|
            start <= i < j < now.len() && found.len() <= j implies (#[trigger] now[i]).entry.name != (
        #[trigger] now[j]).entry.name by {
            assert(now[i] == before[i]);
            if j < before.len() {
                assert(now[j] == before[j]);
            } else {
                assert(!seen(before, start, last.name));
            }
        }
    }
}

/// Of several entries of one name in a version the first is the one that is found, if the group does
/// not have it already.
pub proof fn lemma_first_entry_found(
    d: DiscoveryView,
    group: int,
    version: int,
    entries: Seq<EntryView>,
    k: int,
)
    requires
        lists_version(d, group, version),
        0 <= k < entries.len(),
        forall|i: int|
            d.start <= i < d.found.len() ==> (#[trigger] d.found[i]).entry.name != entries[k].name,
        forall|i: int| 0 <= i < k ==> (#[trigger] entries[i]).name != entries[k].name,
    ensures
        received(d, ReplyView::Resources(entries)).0.found.contains(
            DiscoveredView {
                entry: entries[k],
                group: d.groups[group].name,
                version: d.groups[group].versions[version].version,
            },
        ),
{
    let g = d.groups[group].name;
    let v = d.groups[group].versions[version].version;
    let name = entries[k].name;
    assert(!crate::discovery::names_one(entries.take(k), name)) by {
        if crate::discovery::names_one(entries.take(k), name) {
            let i = choose|i: int|
                0 <= i < entries.take(k).len() && (#[trigger] entries.take(k)[i]).name == name;
            assert(entries[i].name == name);
        }
    }
    lemma_entry_kept(d.found, d.start, g, v, entries, k);
}

/// A version that cannot be listed costs a warning that names it and the error, and nothing that was
/// found.
pub proof fn lemma_failed_version_is_left_out(
    d: DiscoveryView,
    group: int,
    version: int,
    error: Seq<char>,
)
    requires
        lists_version(d, group, version),
    ensures
        ({
            let (now, outcome) = received(d, ReplyView::Failed(error));
            &&& now.found == d.found
            &&& outcome == OutcomeView::Warned(
                "Warning: failed to discover resources for "@
                    + d.groups[group].versions[version].group_version + ": "@ + error,
            )
        }),
{
}

/// After a version the next one of its group comes up, and after the last one those of the group that
/// follows; only what a group lists itself counts as listed by it. This is so whether or not the
/// version could be listed.
pub proof fn lemma_versions_in_order(
    d: DiscoveryView,
    group: int,
    version: int,
    entries: Seq<EntryView>,
    error: Seq<char>,
)
    requires
        lists_version(d, group, version),
    ensures
        ({
            let now = received(d, ReplyView::Resources(entries)).0;
            let failed = received(d, ReplyView::Failed(error)).0;
            &&& now.groups == d.groups && failed.groups == d.groups
            &&& now.stage == failed.stage
            &&& if version + 1 < d.groups[group].versions.len() {
                &&& now.stage == Stage::Version {
                    group: group as usize,
                    version: (version + 1) as usize,
                }
                &&& now.start == d.start && failed.start == d.start
            } else {
                &&& now.start == now.found.len() && failed.start == failed.found.len()
                &&& group + 1 == d.groups.len() ==> now.stage == Stage::Done
                &&& group + 1 < d.groups.len() && d.groups[group + 1].versions.len() > 0
                    ==> now.stage == Stage::Version {
                    group: (group + 1) as usize,
                    version: 0,
                }
            }
        }),
{
    reveal_with_fuel(stage_from, 2);
}

/// After the groups and after the last version of a group comes the first version of the next group
/// that has any, and nothing if there is none.
pub proof fn lemma_empty_groups_skipped(groups: Seq<GroupView>, group: int, next: int)
    requires
        0 <= group <= next <= groups.len(),
        forall|g: int| group <= g < next ==> (#[trigger] groups[g]).versions.len() == 0,
        next < groups.len() ==> groups[next].versions.len() > 0,
    ensures
        stage_from(groups, group, 0) == (if next < groups.len() {
            Stage::Version { group: next as usize, version: 0 }
        } else {
            Stage::Done
        }),
    decreases next - group,
{
    if group < next {
        assert(groups[group].versions.len() == 0);
        lemma_empty_groups_skipped(groups, group + 1, next);
    }
}

/// When the groups are listed, their first version comes up, and after the last version of a group
/// the first one of those that follow.
pub proof fn lemma_next_group_comes_up(
    d: DiscoveryView,
    groups: Seq<GroupView>,
    group: int,
    version: int,
    entries: Seq<EntryView>,
)
    ensures
        d.stage == Stage::Groups ==> received(d, ReplyView::Groups(groups)).0.stage == stage_from(
            groups,
            0,
            0,
        ),
        lists_version(d, group, version) && version + 1 == d.groups[group].versions.len()
            ==> received(d, ReplyView::Resources(entries)).0.stage == stage_from(
            d.groups,
            group + 1,
            0,
        ),
{
}

/// Without the core API or without the groups nothing can be collected, and neither if a request
/// cannot be made: the collecting ends with the error.
pub proof fn lemma_collecting_fails(d: DiscoveryView, error: Seq<char>)
    ensures
        d.stage == Stage::Core || d.stage == Stage::Groups ==> received(d, ReplyView::Failed(error))
            == (d, OutcomeView::Aborted(error)),
        d.stage != Stage::Done ==> received(d, ReplyView::Unmade(error)) == (
            d,
            OutcomeView::Aborted(error),
        ),
        d.stage == Stage::Done ==> address(d) is None,
{
}

}
