//! The resource types that a cluster serves, and how one of them is found by a name.

use vstd::prelude::*;
use vstd::string::*;

use crate::request::{build_request, is_request_for};
use crate::text::{
    contains, decimal, find, first_occurrence, join, joined, lemma_first_occurrence,
    lemma_no_occurrence, lemma_texts_push, lowercase, occurs, occurs_at, same, texts, to_lowercase,
    unsigned_text,
};

verus! {

/// A fully resolved Kubernetes resource type.
#[derive(Debug, PartialEq, Eq)]
pub struct ResolvedResource {
    pub api_resource: ResolvedApiResource,
    pub namespaced: bool,
    pub group: String,
    pub version: String,
}

/// Minimal API resource info we need.
#[derive(Debug, PartialEq, Eq)]
pub struct ResolvedApiResource {
    pub kind: String,
    pub plural: String,
}

/// What a resolved resource type is.
#[verifier::ext_equal]
pub struct ResolvedView {
    pub kind: Seq<char>,
    pub plural: Seq<char>,
    pub namespaced: bool,
    pub group: Seq<char>,
    pub version: Seq<char>,
}

impl ResolvedResource {
    pub open spec fn view(&self) -> ResolvedView {
        ResolvedView {
            kind: self.api_resource.kind@,
            plural: self.api_resource.plural@,
            namespaced: self.namespaced,
            group: self.group@,
            version: self.version@,
        }
    }
}

impl Clone for ResolvedApiResource {
    fn clone(&self) -> (r: ResolvedApiResource)
        ensures
            r.kind@ == self.kind@,
            r.plural@ == self.plural@,
    {
        ResolvedApiResource { kind: self.kind.clone(), plural: self.plural.clone() }
    }
}

impl Clone for ResolvedResource {
    fn clone(&self) -> (r: ResolvedResource)
        ensures
            r@ == self@,
    {
        ResolvedResource {
            api_resource: self.api_resource.clone(),
            namespaced: self.namespaced,
            group: self.group.clone(),
            version: self.version.clone(),
        }
    }
}

/// An entry from the API server's resource list.
#[derive(Debug, PartialEq, Eq)]
pub struct ApiResourceEntry {
    pub name: String,
    pub singular_name: String,
    pub namespaced: bool,
    pub kind: String,
    pub short_names: Vec<String>,
}

/// The resources of one version of an API group.
#[derive(Debug, PartialEq, Eq)]
pub struct ApiResourceList {
    pub resources: Vec<ApiResourceEntry>,
}

/// The API groups of a cluster.
#[derive(Debug, PartialEq, Eq)]
pub struct ApiGroupList {
    pub groups: Vec<ApiGroupEntry>,
}

/// An API group with the versions in which it is served.
#[derive(Debug, PartialEq, Eq)]
pub struct ApiGroupEntry {
    pub name: String,
    pub versions: Vec<ApiGroupVersion>,
}

/// A version of an API group.
#[derive(Debug, PartialEq, Eq)]
pub struct ApiGroupVersion {
    pub group_version: String,
    pub version: String,
}

/// A collected resource with all its metadata from the API server.
#[derive(Debug, PartialEq, Eq)]
pub struct DiscoveredResource {
    pub entry: ApiResourceEntry,
    pub group: String,
    pub version: String,
}

/// What an entry of a resource list is.
#[verifier::ext_equal]
pub struct EntryView {
    pub name: Seq<char>,
    pub singular_name: Seq<char>,
    pub namespaced: bool,
    pub kind: Seq<char>,
    pub short_names: Seq<Seq<char>>,
}

/// What a collected resource is.
#[verifier::ext_equal]
pub struct DiscoveredView {
    pub entry: EntryView,
    pub group: Seq<char>,
    pub version: Seq<char>,
}

impl ApiResourceEntry {
    pub open spec fn view(&self) -> EntryView {
        EntryView {
            name: self.name@,
            singular_name: self.singular_name@,
            namespaced: self.namespaced,
            kind: self.kind@,
            short_names: texts(self.short_names@),
        }
    }
}

impl DiscoveredResource {
    pub open spec fn view(&self) -> DiscoveredView {
        DiscoveredView { entry: self.entry@, group: self.group@, version: self.version@ }
    }
}

/// What the entries of a list are.
pub open spec fn entry_views(entries: Seq<ApiResourceEntry>) -> Seq<EntryView> {
    entries.map_values(|e: ApiResourceEntry| e@)
}

/// What the collected resources of a list are.
pub open spec fn discovered_views(resources: Seq<DiscoveredResource>) -> Seq<DiscoveredView> {
    resources.map_values(|r: DiscoveredResource| r@)
}

/// What is looked for: a name, and a group where the input has a dot.
pub struct Wanted {
    pub name: Seq<char>,
    pub group: Option<Seq<char>>,
}

/// What the input asks for, in lower case: all of it is a name, unless it has a dot. Then the name
/// stands before the first dot and the group after it.
pub open spec fn wanted(input: Seq<char>) -> Wanted {
    let lower = lowercase(input);
    match first_occurrence(lower, "."@) {
        Some(i) => Wanted { name: lower.take(i), group: Some(lower.skip(i + 1)) },
        None => Wanted { name: lower, group: None },
    }
}

/// Whether the entry goes by `name`, as plural, kind or singular.
pub open spec fn named(entry: EntryView, name: Seq<char>) -> bool {
    ||| lowercase(entry.name) == name
    ||| lowercase(entry.kind) == name
    ||| lowercase(entry.singular_name) == name
}

/// Whether the entry goes by the short name `name`.
pub open spec fn short_named(entry: EntryView, name: Seq<char>) -> bool {
    exists|i: int|
        0 <= i < entry.short_names.len() && lowercase(#[trigger] entry.short_names[i]) == name
}

/// Whether the entry is part of another resource, such as its status.
pub open spec fn is_sub_resource(entry: EntryView) -> bool {
    occurs(entry.name, "/"@)
}

/// Whether the resource is one that is looked for. Where a group is given, the resource is of that
/// group and short names do not count. A sub-resource is never looked for.
pub open spec fn answers(resource: DiscoveredView, wanted: Wanted) -> bool {
    &&& match wanted.group {
        Some(group) => lowercase(resource.group) == group && named(resource.entry, wanted.name),
        None => named(resource.entry, wanted.name) || short_named(resource.entry, wanted.name),
    }
    &&& !is_sub_resource(resource.entry)
}

/// The resource type that a collected resource is of.
pub open spec fn resolved(resource: DiscoveredView) -> ResolvedView {
    ResolvedView {
        kind: resource.entry.kind,
        plural: resource.entry.name,
        namespaced: resource.entry.namespaced,
        group: resource.group,
        version: resource.version,
    }
}

/// The type of the first resource that answers, if one does.
pub open spec fn resolution(resources: Seq<DiscoveredView>, wanted: Wanted) -> Option<ResolvedView>
    decreases resources.len(),
{
    if resources.len() == 0 {
        None
    } else if answers(resources[0], wanted) {
        Some(resolved(resources[0]))
    } else {
        resolution(resources.drop_first(), wanted)
    }
}

/// Whether one of the two texts, in lower case, is part of the other.
pub open spec fn similar_names(name: Seq<char>, lower_input: Seq<char>) -> bool {
    occurs(lowercase(name), lower_input) || occurs(lower_input, lowercase(name))
}

/// Whether some name of the entry resembles the input.
pub open spec fn similar(entry: EntryView, lower_input: Seq<char>) -> bool {
    &&& !is_sub_resource(entry)
    &&& {
        ||| similar_names(entry.name, lower_input)
        ||| similar_names(entry.kind, lower_input)
        ||| similar_names(entry.singular_name, lower_input)
        ||| exists|i: int|
            0 <= i < entry.short_names.len() && similar_names(
                #[trigger] entry.short_names[i],
                lower_input,
            )
    }
}

/// How an entry is suggested.
pub open spec fn suggestion(entry: EntryView) -> Seq<char> {
    "  "@ + entry.name + " (kind: "@ + entry.kind + ", shortNames: ["@ + joined(
        entry.short_names,
        ", "@,
    ) + "])"@
}

/// The suggestions for an input: one for each resource that resembles it, in order.
pub open spec fn suggestions(resources: Seq<DiscoveredView>, lower_input: Seq<char>) -> Seq<
    Seq<char>,
>
    decreases resources.len(),
{
    if resources.len() == 0 {
        Seq::empty()
    } else {
        let before = suggestions(resources.drop_last(), lower_input);
        if similar(resources.last().entry, lower_input) {
            before.push(suggestion(resources.last().entry))
        } else {
            before
        }
    }
}

/// Why no resource type was found.
#[derive(Debug, PartialEq, Eq)]
pub enum ResolveError {
    /// Nothing resembles the input.
    Unknown { input: String, discovered: usize },
    /// There are similar resources.
    Similar { input: String, suggestions: Vec<String> },
}

/// Why no resource type was found.
pub enum ResolveErrorView {
    Unknown { input: Seq<char>, discovered: nat },
    Similar { input: Seq<char>, suggestions: Seq<Seq<char>> },
}

impl ResolveError {
    pub open spec fn view(&self) -> ResolveErrorView {
        match *self {
            ResolveError::Unknown { input, discovered } => ResolveErrorView::Unknown {
                input: input@,
                discovered: discovered as nat,
            },
            ResolveError::Similar { input, suggestions } => ResolveErrorView::Similar {
                input: input@,
                suggestions: texts(suggestions@),
            },
        }
    }

    /// The error in words.
    pub fn message(&self) -> (r: String)
        ensures
            r@ == resolve_error_message(self@),
    {
        let mut r: String = "Could not find resource '".to_owned();
        match self {
            ResolveError::Unknown { input, discovered } => {
                r.append(input.as_str());
                r.append("' in the cluster (");
                r.append(unsigned_text(*discovered as u64).as_str());
                r.append(
                    " resources discovered). Make sure the CRD is installed and you have access.",
                );
            },
            ResolveError::Similar { input, suggestions } => {
                r.append(input.as_str());
                r.append("' in the cluster, but found similar resources:\n");
                r.append(join(suggestions, "\n").as_str());
                r.append("\nUse the full resource name or a listed shortName.");
            },
        }
        r
    }
}

/// The error in words.
pub open spec fn resolve_error_message(e: ResolveErrorView) -> Seq<char> {
    match e {
        ResolveErrorView::Unknown { input, discovered } => "Could not find resource '"@ + input
            + "' in the cluster ("@ + decimal(discovered)
            + " resources discovered). Make sure the CRD is installed and you have access."@,
        ResolveErrorView::Similar { input, suggestions } => "Could not find resource '"@ + input
            + "' in the cluster, but found similar resources:\n"@ + joined(suggestions, "\n"@)
            + "\nUse the full resource name or a listed shortName."@,
    }
}

/// The error for an input that no resource answers.
pub open spec fn not_found(resources: Seq<DiscoveredView>, input: Seq<char>) -> ResolveErrorView {
    let found = suggestions(resources, lowercase(input));
    if found.len() == 0 {
        ResolveErrorView::Unknown { input, discovered: resources.len() }
    } else {
        ResolveErrorView::Similar { input, suggestions: found }
    }
}

fn goes_by_short(entry: &ApiResourceEntry, name: &str) -> (r: bool)
    ensures
        r == short_named(entry@, name@),
{
    let mut i: usize = 0;
    while i < entry.short_names.len()
        invariant
            i <= entry.short_names@.len(),
            forall|j: int| 0 <= j < i ==> lowercase(#[trigger] entry@.short_names[j]) != name@,
        decreases entry.short_names@.len() - i,
    {
        if same(to_lowercase(entry.short_names[i].as_str()).as_str(), name) {
            proof {
                assert(lowercase(entry@.short_names[i as int]) == name@);
            }
            return true;
        }
        i = i + 1;
    }
    false
}

fn goes_by(entry: &ApiResourceEntry, name: &str) -> (r: bool)
    ensures
        r == named(entry@, name@),
{
    same(to_lowercase(entry.name.as_str()).as_str(), name) || same(
        to_lowercase(entry.kind.as_str()).as_str(),
        name,
    ) || same(to_lowercase(entry.singular_name.as_str()).as_str(), name)
}

fn resemble(name: &str, lower_input: &str) -> (r: bool)
    ensures
        r == similar_names(name@, lower_input@),
{
    let lower: String = to_lowercase(name);
    contains(lower.as_str(), lower_input) || contains(lower_input, lower.as_str())
}

fn resembles(entry: &ApiResourceEntry, lower_input: &str) -> (r: bool)
    ensures
        r == similar(entry@, lower_input@),
{
    if contains(entry.name.as_str(), "/") {
        return false;
    }
    if resemble(entry.name.as_str(), lower_input) || resemble(entry.kind.as_str(), lower_input)
        || resemble(entry.singular_name.as_str(), lower_input) {
        return true;
    }
    let mut i: usize = 0;
    while i < entry.short_names.len()
        invariant
            i <= entry.short_names@.len(),
            !is_sub_resource(entry@),
            !similar_names(entry@.name, lower_input@),
            !similar_names(entry@.kind, lower_input@),
            !similar_names(entry@.singular_name, lower_input@),
            forall|j: int|
                0 <= j < i ==> !similar_names(#[trigger] entry@.short_names[j], lower_input@),
        decreases entry.short_names@.len() - i,
    {
        if resemble(entry.short_names[i].as_str(), lower_input) {
            proof {
                assert(similar_names(entry@.short_names[i as int], lower_input@));
            }
            return true;
        }
        i = i + 1;
    }
    false
}

fn suggest(entry: &ApiResourceEntry) -> (r: String)
    ensures
        r@ == suggestion(entry@),
{
    let mut r: String = "  ".to_owned();
    r.append(entry.name.as_str());
    r.append(" (kind: ");
    r.append(entry.kind.as_str());
    r.append(", shortNames: [");
    r.append(join(&entry.short_names, ", ").as_str());
    r.append("])");
    r
}

fn suggest_all(resources: &[DiscoveredResource], lower_input: &str) -> (r: Vec<String>)
    ensures
        texts(r@) == suggestions(discovered_views(resources@), lower_input@),
{
    let mut r: Vec<String> = Vec::new();
    let mut i: usize = 0;
    let ghost all = discovered_views(resources@);
    proof {
        assert(texts(r@) =~= Seq::empty());
    }
    while i < resources.len()
        invariant
            i <= resources@.len(),
            all == discovered_views(resources@),
            texts(r@) == suggestions(all.take(i as int), lower_input@),
        decreases resources@.len() - i,
    {
        proof {
            assert(all.take(i + 1).drop_last() =~= all.take(i as int));
            assert(all.take(i + 1).last() == resources@[i as int]@);
        }
        if resembles(&resources[i].entry, lower_input) {
            let s: String = suggest(&resources[i].entry);
            proof {
                lemma_texts_push(r@, s);
            }
            r.push(s);
        }
        i = i + 1;
    }
    proof {
        assert(all.take(i as int) =~= all);
    }
    r
}

/// Resolve a user-provided resource string to a concrete API resource, among the resources that
/// the API server lists.
///
/// Supports:
///   - Plural names: "deployments", "services"
///   - Singular names: "deployment", "service"
///   - Short names: "deploy", "svc", "cm" (from the API server, not hardcoded)
///   - Fully qualified: "certificates.cert-manager.io"
///   - Kind names: "Deployment", "Service"
pub fn resolve_resource(resources: &[DiscoveredResource], input: &str) -> (r: Result<
    ResolvedResource,
    ResolveError,
>)
    ensures
        match r {
            Ok(found) => resolution(discovered_views(resources@), wanted(input@)) == Some(found@),
            Err(e) => {
                &&& resolution(discovered_views(resources@), wanted(input@)) is None
                &&& e@ == not_found(discovered_views(resources@), input@)
            },
        },
{
    let lower: String = to_lowercase(input);
    let dot: Option<usize> = find(lower.as_str(), ".");
    let size: usize = lower.as_str().unicode_len();
    proof {
        reveal_strlit(".");
    }
    let name: &str = match dot {
        Some(i) => lower.as_str().substring_char(0, i),
        None => lower.as_str(),
    };
    let group: &str = match dot {
        Some(i) => lower.as_str().substring_char(i + 1, size),
        None => "",
    };
    let ghost all = discovered_views(resources@);
    let ghost w = wanted(input@);
    proof {
        assert(dot is Some ==> w.name =~= name@ && w.group == Some(group@));
        assert(dot is None ==> w.name == name@ && w.group is None);
        assert(all.skip(0) =~= all);
    }
    let mut i: usize = 0;
    while i < resources.len()
        invariant
            i <= resources@.len(),
            all == discovered_views(resources@),
            w == wanted(input@),
            w.name == name@,
            w.group == (match dot {
                Some(_) => Some(group@),
                None => None,
            }),
            resolution(all, w) == resolution(all.skip(i as int), w),
        decreases resources@.len() - i,
    {
        let res: &DiscoveredResource = &resources[i];
        proof {
            assert(all.skip(i as int)[0] == res@);
            assert(all.skip(i as int).drop_first() =~= all.skip(i + 1));
        }
        let matches: bool = match dot {
            Some(_) => same(to_lowercase(res.group.as_str()).as_str(), group) && goes_by(
                &res.entry,
                name,
            ),
            None => goes_by(&res.entry, name) || goes_by_short(&res.entry, name),
        };
        if matches && !contains(res.entry.name.as_str(), "/") {
            let found = ResolvedResource {
                api_resource: ResolvedApiResource {
                    kind: res.entry.kind.clone(),
                    plural: res.entry.name.clone(),
                },
                namespaced: res.entry.namespaced,
                group: res.group.clone(),
                version: res.version.clone(),
            };
            proof {
                assert(found@ =~= resolved(res@));
            }
            return Ok(found);
        }
        i = i + 1;
    }
    let suggestions: Vec<String> = suggest_all(resources, lower.as_str());
    if suggestions.len() == 0 {
        Err(ResolveError::Unknown { input: input.to_owned(), discovered: resources.len() })
    } else {
        Err(ResolveError::Similar { input: input.to_owned(), suggestions })
    }
}

/// Whether letters are upper or lower case in the input does not matter.
pub proof fn lemma_case_does_not_matter(
    resources: Seq<DiscoveredView>,
    one: Seq<char>,
    other: Seq<char>,
)
    requires
        lowercase(one) == lowercase(other),
    ensures
        resolution(resources, wanted(one)) == resolution(resources, wanted(other)),
        suggestions(resources, lowercase(one)) == suggestions(resources, lowercase(other)),
{
}

/// What an input resolves to is the type of a resource that answers it, and no resource before that
/// one does. It is no sub-resource.
pub proof fn lemma_resolves_to_first(resources: Seq<DiscoveredView>, wanted: Wanted)
    ensures
        match resolution(resources, wanted) {
            Some(found) => exists|i: int| #[trigger]
                resolves_at(resources, wanted, i) && found == resolved(resources[i]) && !occurs(
                    found.plural,
                    "/"@,
                ),
            None => forall|i: int|
                0 <= i < resources.len() ==> !answers(#[trigger] resources[i], wanted),
        },
    decreases resources.len(),
{
    if resources.len() > 0 {
        let rest = resources.drop_first();
        if answers(resources[0], wanted) {
            assert(resolves_at(resources, wanted, 0));
        } else {
            lemma_resolves_to_first(rest, wanted);
            match resolution(rest, wanted) {
                Some(found) => {
                    let i = choose|i: int| #[trigger]
                        resolves_at(rest, wanted, i) && found == resolved(rest[i]) && !occurs(
                            found.plural,
                            "/"@,
                        );
                    assert forall|j: int| 0 <= j < i + 1 implies !answers(
                        #[trigger] resources[j],
                        wanted,
                    ) by {
                        if j > 0 {
                            assert(resources[j] == rest[j - 1]);
                        }
                    }
                    assert(rest[i] == resources[i + 1]);
                    assert(resolves_at(resources, wanted, i + 1));
                },
                None => {
                    assert forall|j: int| 0 <= j < resources.len() implies !answers(
                        #[trigger] resources[j],
                        wanted,
                    ) by {
                        if j > 0 {
                            assert(resources[j] == rest[j - 1]);
                        }
                    }
                },
            }
        }
    }
}

/// Whether the resource at `i` is the first that answers.
pub open spec fn resolves_at(resources: Seq<DiscoveredView>, wanted: Wanted, i: int) -> bool {
    &&& 0 <= i < resources.len()
    &&& answers(resources[i], wanted)
    &&& forall|j: int| 0 <= j < i ==> !answers(#[trigger] resources[j], wanted)
}

/// A plural, kind, singular or short name of a resource, with no dot in it, resolves: some resource
/// answers to it.
pub proof fn lemma_names_resolve(resources: Seq<DiscoveredView>, input: Seq<char>, i: int)
    requires
        0 <= i < resources.len(),
        !is_sub_resource(resources[i].entry),
        named(resources[i].entry, lowercase(input)) || short_named(
            resources[i].entry,
            lowercase(input),
        ),
        !occurs(lowercase(input), "."@),
    ensures
        resolution(resources, wanted(input)) is Some,
{
    lemma_no_occurrence(lowercase(input), "."@);
    assert(answers(resources[i], wanted(input)));
    lemma_resolves_to_first(resources, wanted(input));
}

/// A plural, kind or singular name of a resource with a dot and the group of the resource after it
/// resolves, and to a resource of that group.
pub proof fn lemma_qualified_names_resolve(
    resources: Seq<DiscoveredView>,
    input: Seq<char>,
    name: Seq<char>,
    i: int,
)
    requires
        0 <= i < resources.len(),
        !is_sub_resource(resources[i].entry),
        named(resources[i].entry, name),
        !occurs(name, "."@),
        lowercase(input) == name + "."@ + lowercase(resources[i].group),
    ensures
        match resolution(resources, wanted(input)) {
            Some(found) => lowercase(found.group) == lowercase(resources[i].group),
            None => false,
        },
{
    let lower = lowercase(input);
    let n = name.len() as int;
    reveal_strlit(".");
    assert(lower.subrange(n, n + 1) =~= "."@);
    assert forall|j: int| 0 <= j < n implies !occurs_at(lower, "."@, j) by {
        assert(lower.subrange(j, j + 1) =~= name.subrange(j, j + 1));
        assert(!occurs_at(name, "."@, j));
    }
    lemma_first_occurrence(lower, "."@, n);
    assert(lower.take(n) =~= name);
    assert(lower.skip(n + 1) =~= lowercase(resources[i].group));
    assert(answers(resources[i], wanted(input)));
    lemma_resolves_to_first(resources, wanted(input));
}

/// What a version of an API group is.
pub struct VersionView {
    pub group_version: Seq<char>,
    pub version: Seq<char>,
}

/// What an API group is.
pub struct GroupView {
    pub name: Seq<char>,
    pub versions: Seq<VersionView>,
}

impl ApiGroupVersion {
    pub open spec fn view(&self) -> VersionView {
        VersionView { group_version: self.group_version@, version: self.version@ }
    }
}

impl ApiGroupEntry {
    pub open spec fn view(&self) -> GroupView {
        GroupView {
            name: self.name@,
            versions: self.versions@.map_values(|v: ApiGroupVersion| v@),
        }
    }
}

/// What the groups of a list are.
pub open spec fn group_views(groups: Seq<ApiGroupEntry>) -> Seq<GroupView> {
    groups.map_values(|g: ApiGroupEntry| g@)
}

/// What is to be listed next.
#[derive(Debug, Clone, Copy, PartialEq, Eq)]
pub enum Stage {
    /// The resources of the core API.
    Core,
    /// The API groups.
    Groups,
    /// The resources of a version of a group, both by their positions.
    Version { group: usize, version: usize },
    /// Nothing.
    Done,
}

/// The collecting of all resources of a cluster, as far as it has come.
#[derive(Debug, PartialEq, Eq)]
pub struct Discovery {
    stage: Stage,
    groups: Vec<ApiGroupEntry>,
    found: Vec<DiscoveredResource>,
    /// How many resources had been found when the current group came up.
    start: usize,
}

/// What the collecting has come to.
#[verifier::ext_equal]
pub struct DiscoveryView {
    pub stage: Stage,
    pub groups: Seq<GroupView>,
    pub found: Seq<DiscoveredView>,
    pub start: nat,
}

/// What came back from the API server.
#[derive(Debug, PartialEq, Eq)]
pub enum Reply {
    Resources(ApiResourceList),
    Groups(ApiGroupList),
    Failed(String),
    /// The request could not even be made.
    Unmade(String),
}

/// What came back from the API server.
pub enum ReplyView {
    Resources(Seq<EntryView>),
    Groups(Seq<GroupView>),
    Failed(Seq<char>),
    Unmade(Seq<char>),
}

impl Reply {
    pub open spec fn view(&self) -> ReplyView {
        match *self {
            Reply::Resources(list) => ReplyView::Resources(entry_views(list.resources@)),
            Reply::Groups(list) => ReplyView::Groups(group_views(list.groups@)),
            Reply::Failed(error) => ReplyView::Failed(error@),
            Reply::Unmade(error) => ReplyView::Unmade(error@),
        }
    }
}

/// What follows from a reply.
#[derive(Debug, PartialEq, Eq)]
pub enum Outcome {
    /// The collecting goes on.
    Going,
    /// The collecting goes on without what failed, with this warning.
    Warned(String),
    /// The collecting has failed with this error.
    Aborted(String),
    /// The reply is not of the kind that was asked for.
    Misplaced,
}

/// What follows from a reply.
pub enum OutcomeView {
    Going,
    Warned(Seq<char>),
    Aborted(Seq<char>),
    Misplaced,
}

impl Outcome {
    pub open spec fn view(&self) -> OutcomeView {
        match *self {
            Outcome::Going => OutcomeView::Going,
            Outcome::Warned(text) => OutcomeView::Warned(text@),
            Outcome::Aborted(text) => OutcomeView::Aborted(text@),
            Outcome::Misplaced => OutcomeView::Misplaced,
        }
    }
}

/// The resources of the core API: they are of no group and of version v1.
pub open spec fn core_resources(entries: Seq<EntryView>) -> Seq<DiscoveredView> {
    entries.map_values(
        |e: EntryView|
            DiscoveredView { entry: e, group: Seq::empty(), version: "v1"@ },
    )
}

/// Whether one of the resources from `start` on has the name `name`.
pub open spec fn seen(found: Seq<DiscoveredView>, start: nat, name: Seq<char>) -> bool {
    exists|i: int| start <= i < found.len() && (#[trigger] found[i]).entry.name == name
}

/// `found` with the entries of a version of a group, but for those whose names have been found in
/// the group before.
pub open spec fn with_entries(
    found: Seq<DiscoveredView>,
    start: nat,
    group: Seq<char>,
    version: Seq<char>,
    entries: Seq<EntryView>,
) -> Seq<DiscoveredView>
    decreases entries.len(),
{
    if entries.len() == 0 {
        found
    } else {
        let before = with_entries(found, start, group, version, entries.drop_last());
        if seen(before, start, entries.last().name) {
            before
        } else {
            before.push(DiscoveredView { entry: entries.last(), group, version })
        }
    }
}

/// The first version from the given positions on.
pub open spec fn stage_from(groups: Seq<GroupView>, group: int, version: int) -> Stage
    decreases groups.len() - group,
{
    if group < 0 || group >= groups.len() {
        Stage::Done
    } else if version < groups[group].versions.len() {
        Stage::Version { group: group as usize, version: version as usize }
    } else {
        stage_from(groups, group + 1, 0)
    }
}

/// The collecting before the first reply.
pub open spec fn beginning() -> DiscoveryView {
    DiscoveryView { stage: Stage::Core, groups: Seq::empty(), found: Seq::empty(), start: 0 }
}

/// The address of what is to be listed next.
pub open spec fn address(d: DiscoveryView) -> Option<Seq<char>> {
    match d.stage {
        Stage::Core => Some("/api/v1"@),
        Stage::Groups => Some("/apis"@),
        Stage::Version { group, version } => Some(
            "/apis/"@ + d.groups[group as int].versions[version as int].group_version,
        ),
        Stage::Done => None,
    }
}

/// The collecting when a version of a group has been dealt with and these resources are found.
pub open spec fn version_over(
    d: DiscoveryView,
    group: int,
    version: int,
    found: Seq<DiscoveredView>,
) -> DiscoveryView {
    DiscoveryView {
        stage: stage_from(d.groups, group, version + 1),
        groups: d.groups,
        found,
        start: if version + 1 < d.groups[group].versions.len() {
            d.start
        } else {
            found.len()
        },
    }
}

/// The warning about a version whose resources could not be listed.
pub open spec fn version_warning(group_version: Seq<char>, error: Seq<char>) -> Seq<char> {
    "Warning: failed to discover resources for "@ + group_version + ": "@ + error
}

/// What the collecting comes to with a reply, and what follows from the reply. Without the
/// resources of a version of a group it goes on, without those of the core API or without the
/// groups it does not, and neither if a request cannot be made.
pub open spec fn received(d: DiscoveryView, reply: ReplyView) -> (DiscoveryView, OutcomeView) {
    match (d.stage, reply) {
        (Stage::Core, ReplyView::Resources(entries)) => (
            DiscoveryView { stage: Stage::Groups, found: core_resources(entries), ..d },
            OutcomeView::Going,
        ),
        (Stage::Groups, ReplyView::Groups(groups)) => (
            DiscoveryView {
                stage: stage_from(groups, 0, 0),
                groups,
                start: d.found.len(),
                ..d
            },
            OutcomeView::Going,
        ),
        (Stage::Version { group, version }, ReplyView::Resources(entries)) => {
            let g = d.groups[group as int];
            let found = with_entries(
                d.found,
                d.start,
                g.name,
                g.versions[version as int].version,
                entries,
            );
            (version_over(d, group as int, version as int, found), OutcomeView::Going)
        },
        (Stage::Version { group, version }, ReplyView::Failed(error)) => (
            version_over(d, group as int, version as int, d.found),
            OutcomeView::Warned(
                version_warning(
                    d.groups[group as int].versions[version as int].group_version,
                    error,
                ),
            ),
        ),
        (Stage::Core, ReplyView::Failed(error)) => (d, OutcomeView::Aborted(error)),
        (Stage::Groups, ReplyView::Failed(error)) => (d, OutcomeView::Aborted(error)),
        (Stage::Done, _) => (d, OutcomeView::Misplaced),
        (_, ReplyView::Unmade(error)) => (d, OutcomeView::Aborted(error)),
        _ => (d, OutcomeView::Misplaced),
    }
}

impl Discovery {
    pub closed spec fn view(&self) -> DiscoveryView {
        DiscoveryView {
            stage: self.stage,
            groups: group_views(self.groups@),
            found: discovered_views(self.found@),
            start: self.start as nat,
        }
    }

    /// The positions are those of a version that there is.
    #[verifier::type_invariant]
    spec fn wf(&self) -> bool {
        match self.stage {
            Stage::Version { group, version } => group < self.groups@.len() && version
                < self.groups@[group as int].versions@.len(),
            _ => true,
        }
    }

    /// Starts the collecting.
    pub fn begin() -> (r: Discovery)
        ensures
            r@ == beginning(),
    {
        let r = Discovery {
            stage: Stage::Core,
            groups: Vec::new(),
            found: Vec::new(),
            start: 0,
        };
        proof {
            assert(r@ =~= beginning());
        }
        r
    }

    /// What is to be listed next.
    pub fn stage(&self) -> (r: Stage)
        ensures
            r == self@.stage,
    {
        self.stage
    }

    /// The resources that have been found.
    pub fn found(&self) -> (r: &Vec<DiscoveredResource>)
        ensures
            discovered_views(r@) == self@.found,
    {
        &self.found
    }

    /// Hands out the resources that have been found.
    pub fn into_found(self) -> (r: Vec<DiscoveredResource>)
        ensures
            discovered_views(r@) == self@.found,
    {
        self.found
    }

    /// The address of what is to be listed next, if anything is.
    pub fn uri(&self) -> (r: Option<String>)
        ensures
            match r {
                Some(uri) => address(self@) == Some(uri@),
                None => address(self@) is None,
            },
    {
        proof {
            use_type_invariant(self);
        }
        match self.stage {
            Stage::Core => Some("/api/v1".to_owned()),
            Stage::Groups => Some("/apis".to_owned()),
            Stage::Version { group, version } => {
                let mut uri: String = "/apis/".to_owned();
                uri.append(self.groups[group].versions[version].group_version.as_str());
                Some(uri)
            },
            Stage::Done => None,
        }
    }

    /// The request for what is to be listed next, if anything is, or why it cannot be made.
    pub fn request(&self) -> (r: Option<Result<http::Request<Vec<u8>>, String>>)
        ensures
            is_request_for(address(self@), r),
    {
        match self.uri() {
            Some(uri) => Some(build_request(uri.as_str())),
            None => None,
        }
    }

    /// Takes what came back from the API server.
    pub fn receive(&mut self, reply: Reply) -> (r: Outcome)
        ensures
            (final(self)@, r@) == received(old(self)@, reply@),
    {
        proof {
            use_type_invariant(&*self);
        }
        match (self.stage, reply) {
            (Stage::Core, Reply::Resources(list)) => {
                self.found = of_core(list.resources);
                self.stage = Stage::Groups;
                Outcome::Going
            },
            (Stage::Groups, Reply::Groups(list)) => {
                self.groups = list.groups;
                self.start = self.found.len();
                self.stage = first_version(&self.groups, 0, 0);
                Outcome::Going
            },
            (Stage::Version { group, version }, Reply::Resources(list)) => {
                let name: String = self.groups[group].name.clone();
                let version_name: String = self.groups[group].versions[version].version.clone();
                let mut found: Vec<DiscoveredResource> = Vec::new();
                std::mem::swap(&mut found, &mut self.found);
                add_entries(
                    &mut found,
                    self.start,
                    name.as_str(),
                    version_name.as_str(),
                    list.resources,
                );
                self.found = found;
                self.finish_version(group, version);
                Outcome::Going
            },
            (Stage::Version { group, version }, Reply::Failed(error)) => {
                let mut warning: String = "Warning: failed to discover resources for ".to_owned();
                warning.append(self.groups[group].versions[version].group_version.as_str());
                warning.append(": ");
                warning.append(error.as_str());
                self.finish_version(group, version);
                Outcome::Warned(warning)
            },
            (Stage::Core, Reply::Failed(error)) => Outcome::Aborted(error),
            (Stage::Groups, Reply::Failed(error)) => Outcome::Aborted(error),
            (Stage::Done, _) => Outcome::Misplaced,
            (_, Reply::Unmade(error)) => Outcome::Aborted(error),
            _ => Outcome::Misplaced,
        }
    }

    fn finish_version(&mut self, group: usize, version: usize)
        requires
            group < old(self).groups@.len(),
            version < old(self).groups@[group as int].versions@.len(),
        ensures
            final(self)@ == version_over(
                old(self)@,
                group as int,
                version as int,
                old(self)@.found,
            ),
    {
        let versions: usize = self.groups[group].versions.len();
        self.stage = first_version(&self.groups, group, version + 1);
        if version + 1 >= versions {
            self.start = self.found.len();
        }
        proof {
            assert(self@ =~= version_over(
                old(self)@,
                group as int,
                version as int,
                old(self)@.found,
            ));
        }
    }
}

fn of_core(entries: Vec<ApiResourceEntry>) -> (r: Vec<DiscoveredResource>)
    ensures
        discovered_views(r@) == core_resources(entry_views(entries@)),
{
    let mut r: Vec<DiscoveredResource> = Vec::new();
    let ghost all = entry_views(entries@);
    for entry in it: entries
        invariant
            all == entry_views(it.seq()),
            discovered_views(r@) == core_resources(all.take(it.index() as int)),
    {
        let found = DiscoveredResource { entry, group: String::new(), version: "v1".to_owned() };
        proof {
            assert(discovered_views(r@.push(found)) =~= discovered_views(r@).push(found@));
            assert(core_resources(all.take(it.index() as int + 1)) =~= core_resources(
                all.take(it.index() as int),
            ).push(found@));
        }
        r.push(found);
    }
    proof {
        assert(all.take(all.len() as int) =~= all);
    }
    r
}

fn is_seen(found: &Vec<DiscoveredResource>, start: usize, name: &str) -> (r: bool)
    ensures
        r == seen(discovered_views(found@), start as nat, name@),
{
    let mut i: usize = start;
    while i < found.len()
        invariant
            start <= i,
            forall|j: int|
                start <= j < i && j < found@.len() ==> (#[trigger] discovered_views(found@)[j]).entry.name != name@,
        decreases found@.len() - i,
    {
        if same(found[i].entry.name.as_str(), name) {
            proof {
                assert(discovered_views(found@)[i as int].entry.name == name@);
            }
            return true;
        }
        i = i + 1;
    }
    false
}

fn add_entries(
    found: &mut Vec<DiscoveredResource>,
    start: usize,
    group: &str,
    version: &str,
    entries: Vec<ApiResourceEntry>,
)
    ensures
        discovered_views(final(found)@) == with_entries(
            discovered_views(old(found)@),
            start as nat,
            group@,
            version@,
            entry_views(entries@),
        ),
{
    let ghost all = entry_views(entries@);
    let ghost before = discovered_views(found@);
    for entry in it: entries
        invariant
            all == entry_views(it.seq()),
            discovered_views(found@) == with_entries(
                before,
                start as nat,
                group@,
                version@,
                all.take(it.index() as int),
            ),
    {
        proof {
            assert(all.take(it.index() as int + 1).drop_last() =~= all.take(it.index() as int));
            assert(all.take(it.index() as int + 1).last() == entry@);
        }
        if !is_seen(found, start, entry.name.as_str()) {
            let new = DiscoveredResource {
                entry,
                group: group.to_owned(),
                version: version.to_owned(),
            };
            proof {
                assert(discovered_views(found@.push(new)) =~= discovered_views(found@).push(new@));
            }
            found.push(new);
        }
    }
    proof {
        assert(all.take(all.len() as int) =~= all);
    }
}

fn first_version(groups: &Vec<ApiGroupEntry>, group: usize, version: usize) -> (r: Stage)
    ensures
        r == stage_from(group_views(groups@), group as int, version as int),
        match r {
            Stage::Version { group, version } => group < groups@.len() && version
                < groups@[group as int].versions@.len(),
            Stage::Done => true,
            _ => false,
        },
    decreases groups@.len() - group,
{
    if group >= groups.len() {
        Stage::Done
    } else if version < groups[group].versions.len() {
        Stage::Version { group, version }
    } else {
        first_version(groups, group + 1, 0)
    }
}

/// What the collecting comes to with some replies, one after the other.
pub open spec fn run(d: DiscoveryView, replies: Seq<ReplyView>) -> DiscoveryView
    decreases replies.len(),
{
    if replies.len() == 0 {
        d
    } else {
        run(received(d, replies[0]).0, replies.drop_first())
    }
}

/// The entries that a reply lists: none if it is a failure.
pub open spec fn listed_in(reply: ReplyView) -> Seq<EntryView> {
    match reply {
        ReplyView::Resources(entries) => entries,
        _ => Seq::empty(),
    }
}

/// `found` with what the replies for the versions of a group list, from `version` on.
pub open spec fn with_versions(
    found: Seq<DiscoveredView>,
    start: nat,
    group: GroupView,
    version: int,
    replies: Seq<ReplyView>,
) -> Seq<DiscoveredView>
    decreases group.versions.len() - version,
{
    if version < 0 || version >= group.versions.len() {
        found
    } else {
        with_versions(
            with_entries(
                found,
                start,
                group.name,
                group.versions[version].version,
                listed_in(replies[0]),
            ),
            start,
            group,
            version + 1,
            replies.drop_first(),
        )
    }
}

/// `found` with what the replies for all versions of the groups from `group` on list.
pub open spec fn with_groups(
    found: Seq<DiscoveredView>,
    groups: Seq<GroupView>,
    group: int,
    replies: Seq<ReplyView>,
) -> Seq<DiscoveredView>
    decreases groups.len() - group,
{
    if group < 0 || group >= groups.len() {
        found
    } else {
        with_groups(
            with_versions(found, found.len(), groups[group], 0, replies),
            groups,
            group + 1,
            replies.skip(groups[group].versions.len() as int),
        )
    }
}

/// How many versions the groups from `group` on have.
pub open spec fn version_count(groups: Seq<GroupView>, group: int) -> nat
    decreases groups.len() - group,
{
    if group < 0 || group >= groups.len() {
        0
    } else {
        groups[group].versions.len() + version_count(groups, group + 1)
    }
}

/// Whether a reply is one to a request for resources.
pub open spec fn lists_resources(reply: ReplyView) -> bool {
    reply is Resources || reply is Failed
}

/// Whether each reply is one to a request for resources.
pub open spec fn for_resources(replies: Seq<ReplyView>) -> bool {
    forall|i: int| 0 <= i < replies.len() ==> lists_resources(#[trigger] replies[i])
}

/// Whether the positions of groups and versions are machine integers.
pub open spec fn indexable(groups: Seq<GroupView>) -> bool {
    &&& groups.len() <= usize::MAX
    &&& forall|i: int|
        0 <= i < groups.len() ==> (#[trigger] groups[i]).versions.len() <= usize::MAX
}

proof fn lemma_run_from_group(d: DiscoveryView, group: int, replies: Seq<ReplyView>)
    requires
        0 <= group,
        d.stage == stage_from(d.groups, group, 0),
        d.start == d.found.len(),
        indexable(d.groups),
        for_resources(replies),
        replies.len() == version_count(d.groups, group),
    ensures
        run(d, replies).stage == Stage::Done,
        run(d, replies).found == with_groups(d.found, d.groups, group, replies),
    decreases replies.len(), d.groups.len() - group, 1nat,
{
    if group < d.groups.len() {
        if d.groups[group].versions.len() == 0 {
            assert(replies.skip(0) =~= replies);
            lemma_run_from_group(d, group + 1, replies);
        } else {
            lemma_run_from_version(d, group, 0, replies);
        }
    }
}

proof fn lemma_run_from_version(
    d: DiscoveryView,
    group: int,
    version: int,
    replies: Seq<ReplyView>,
)
    requires
        0 <= group < d.groups.len(),
        0 <= version < d.groups[group].versions.len(),
        d.stage == (Stage::Version { group: group as usize, version: version as usize }),
        indexable(d.groups),
        for_resources(replies),
        replies.len() == d.groups[group].versions.len() - version + version_count(
            d.groups,
            group + 1,
        ),
    ensures
        run(d, replies).stage == Stage::Done,
        run(d, replies).found == with_groups(
            with_versions(d.found, d.start, d.groups[group], version, replies),
            d.groups,
            group + 1,
            replies.skip(d.groups[group].versions.len() - version),
        ),
    decreases replies.len(), d.groups.len() - group, 0nat,
{
    let g = d.groups[group];
    let next = received(d, replies[0]).0;
    let rest = replies.drop_first();
    let found = with_entries(
        d.found,
        d.start,
        g.name,
        g.versions[version].version,
        listed_in(replies[0]),
    );
    assert(lists_resources(replies[0]));
    assert forall|i: int| 0 <= i < rest.len() implies lists_resources(#[trigger] rest[i]) by {
        assert(rest[i] == replies[i + 1]);
    }
    assert(next == version_over(d, group, version, found));
    assert(rest.skip(g.versions.len() - version - 1) =~= replies.skip(
        g.versions.len() - version,
    ));
    if version + 1 < g.versions.len() {
        lemma_run_from_version(next, group, version + 1, rest);
    } else {
        assert(with_versions(found, d.start, g, version + 1, rest) == found);
        assert(replies.skip(1) =~= rest);
        lemma_run_from_group(next, group + 1, rest);
    }
}

/// When the core API and the groups have been listed and a reply has come for each version of each
/// group, the collecting is over. It has found the resources of the core API and then those of the
/// groups, each group by itself, its versions in their order.
pub proof fn lemma_all_collected(
    core: Seq<EntryView>,
    groups: Seq<GroupView>,
    replies: Seq<ReplyView>,
)
    requires
        indexable(groups),
        for_resources(replies),
        replies.len() == version_count(groups, 0),
    ensures
        ({
            let end = run(
                beginning(),
                seq![ReplyView::Resources(core), ReplyView::Groups(groups)] + replies,
            );
            &&& end.stage == Stage::Done
            &&& end.found == with_groups(core_resources(core), groups, 0, replies)
        }),
{
    let all = seq![ReplyView::Resources(core), ReplyView::Groups(groups)] + replies;
    let one = received(beginning(), all[0]).0;
    let two = received(one, all[1]).0;
    assert(all.drop_first()[0] == all[1]);
    assert(all.drop_first().drop_first() =~= replies);
    assert(run(one, all.drop_first()) == run(two, replies));
    lemma_run_from_group(two, 0, replies);
}

/// Whether no two of the resources from `start` on have the same name.
pub open spec fn names_distinct(found: Seq<DiscoveredView>, start: nat) -> bool {
    forall|i: int, j: int|
        start <= i < j < found.len() ==> (#[trigger] found[i]).entry.name != (
        #[trigger] found[j]).entry.name
}

/// Whether one of the entries has the name `name`.
pub open spec fn names_one(entries: Seq<EntryView>, name: Seq<char>) -> bool {
    exists|i: int| 0 <= i < entries.len() && (#[trigger] entries[i]).name == name
}

/// What the entries of a version add: nothing of what was found goes, no name comes up twice, and each
/// name that an entry has is found.
pub proof fn lemma_with_entries(
    found: Seq<DiscoveredView>,
    start: nat,
    group: Seq<char>,
    version: Seq<char>,
    entries: Seq<EntryView>,
)
    requires
        start <= found.len(),
    ensures
        ({
            let now = with_entries(found, start, group, version, entries);
            &&& found.is_prefix_of(now)
            &&& names_distinct(found, start) ==> names_distinct(now, start)
            &&& forall|name: Seq<char>|
                #![trigger seen(now, start, name)]
                seen(now, start, name) == (seen(found, start, name) || names_one(entries, name))
        }),
    decreases entries.len(),
{
    let now = with_entries(found, start, group, version, entries);
    if entries.len() == 0 {
        assert(found =~= now.take(found.len() as int));
    } else {
        let rest = entries.drop_last();
        let last = entries.last();
        let before = with_entries(found, start, group, version, rest);
        lemma_with_entries(found, start, group, version, rest);
        assert(found =~= now.take(found.len() as int));
        assert forall|name: Seq<char>| #[trigger] seen(now, start, name) == (seen(
            found,
            start,
            name,
        ) || names_one(entries, name)) by {
            assert(seen(before, start, name) == (seen(found, start, name) || names_one(
                rest,
                name,
            )));
            if seen(before, start, name) {
                let i = choose|i: int|
                    start <= i < before.len() && (#[trigger] before[i]).entry.name == name;
                assert(now[i] == before[i]);
            }
            if names_one(rest, name) {
                let i = choose|i: int| 0 <= i < rest.len() && (#[trigger] rest[i]).name == name;
                assert(entries[i] == rest[i]);
            }
            if last.name == name {
                assert(entries[entries.len() - 1].name == name);
                if !seen(before, start, last.name) {
                    assert(now[now.len() - 1].entry.name == name);
                }
            }
            if names_one(entries, name) && last.name != name {
                let i = choose|i: int|
                    0 <= i < entries.len() && (#[trigger] entries[i]).name == name;
                assert(rest[i] == entries[i]);
            }
            if seen(now, start, name) && last.name != name {
                let i = choose|i: int|
                    start <= i < now.len() && (#[trigger] now[i]).entry.name == name;
                assert(before[i] == now[i]);
            }
        }
    }
}

/// Within a group no two of the collected resources have the same name, and what had been found
/// before the group stays as it is.
pub proof fn lemma_group_names_distinct(
    found: Seq<DiscoveredView>,
    start: nat,
    group: GroupView,
    version: int,
    replies: Seq<ReplyView>,
)
    requires
        start <= found.len(),
        names_distinct(found, start),
    ensures
        found.is_prefix_of(with_versions(found, start, group, version, replies)),
        names_distinct(with_versions(found, start, group, version, replies), start),
    decreases group.versions.len() - version,
{
    if 0 <= version < group.versions.len() {
        let next = with_entries(
            found,
            start,
            group.name,
            group.versions[version].version,
            listed_in(replies[0]),
        );
        lemma_with_entries(
            found,
            start,
            group.name,
            group.versions[version].version,
            listed_in(replies[0]),
        );
        lemma_group_names_distinct(next, start, group, version + 1, replies.drop_first());
        let end = with_versions(found, start, group, version, replies);
        assert(found =~= end.take(found.len() as int));
    } else {
        assert(found =~= found.take(found.len() as int));
    }
}

/// The first entry of a name that has not been found is kept as it is.
pub proof fn lemma_entry_kept(
    found: Seq<DiscoveredView>,
    start: nat,
    group: Seq<char>,
    version: Seq<char>,
    entries: Seq<EntryView>,
    k: int,
)
    requires
        start <= found.len(),
        0 <= k < entries.len(),
        !seen(found, start, entries[k].name),
        !names_one(entries.take(k), entries[k].name),
    ensures
        with_entries(found, start, group, version, entries).contains(
            DiscoveredView { entry: entries[k], group, version },
        ),
    decreases entries.len(),
{
    let now = with_entries(found, start, group, version, entries);
    let rest = entries.drop_last();
    let before = with_entries(found, start, group, version, rest);
    let kept = DiscoveredView { entry: entries[k], group, version };
    if k == entries.len() - 1 {
        assert(entries.take(k) =~= rest);
        lemma_with_entries(found, start, group, version, rest);
        assert(!seen(before, start, entries[k].name));
        assert(now[now.len() - 1] == kept);
    } else {
        assert(rest.take(k) =~= entries.take(k));
        lemma_entry_kept(found, start, group, version, rest, k);
        let i = choose|i: int| 0 <= i < before.len() && before[i] == kept;
        assert(now[i] == kept);
    }
}

/// Of the versions of a group that list a resource the first one counts: its entry is kept, with
/// that version.
pub proof fn lemma_first_version_kept(
    found: Seq<DiscoveredView>,
    start: nat,
    group: GroupView,
    version: int,
    replies: Seq<ReplyView>,
    v: int,
    k: int,
)
    requires
        start <= found.len(),
        0 <= version <= v < group.versions.len(),
        replies.len() >= group.versions.len() - version,
        0 <= k < listed_in(replies[v - version]).len(),
        ({
            let name = listed_in(replies[v - version])[k].name;
            &&& !seen(found, start, name)
            &&& !names_one(listed_in(replies[v - version]).take(k), name)
            &&& forall|u: int|
                version <= u < v ==> !names_one(listed_in(#[trigger] replies[u - version]), name)
        }),
    ensures
        with_versions(found, start, group, version, replies).contains(
            DiscoveredView {
                entry: listed_in(replies[v - version])[k],
                group: group.name,
                version: group.versions[v].version,
            },
        ),
    decreases group.versions.len() - version,
{
    let entries = listed_in(replies[0]);
    let name = listed_in(replies[v - version])[k].name;
    let this = group.versions[version].version;
    let next = with_entries(found, start, group.name, this, entries);
    let rest = replies.drop_first();
    lemma_with_entries(found, start, group.name, this, entries);
    if v == version {
        let kept = DiscoveredView { entry: entries[k], group: group.name, version: this };
        lemma_entry_kept(found, start, group.name, this, entries, k);
        lemma_versions_extend(next, start, group, version + 1, rest);
        let end = with_versions(next, start, group, version + 1, rest);
        let i = choose|i: int| 0 <= i < next.len() && next[i] == kept;
        assert(end.take(next.len() as int)[i] == end[i]);
        assert(end[i] == kept);
    } else {
        assert(!names_one(listed_in(replies[version - version]), name));
        assert(!seen(next, start, name));
        assert(rest[v - (version + 1)] == replies[v - version]);
        assert forall|u: int| version + 1 <= u < v implies !names_one(
            listed_in(#[trigger] rest[u - (version + 1)]),
            name,
        ) by {
            assert(rest[u - (version + 1)] == replies[u - version]);
        }
        lemma_first_version_kept(next, start, group, version + 1, rest, v, k);
    }
}

proof fn lemma_versions_extend(
    found: Seq<DiscoveredView>,
    start: nat,
    group: GroupView,
    version: int,
    replies: Seq<ReplyView>,
)
    requires
        start <= found.len(),
    ensures
        found.is_prefix_of(with_versions(found, start, group, version, replies)),
    decreases group.versions.len() - version,
{
    let end = with_versions(found, start, group, version, replies);
    if 0 <= version < group.versions.len() {
        let this = group.versions[version].version;
        let next = with_entries(found, start, group.name, this, listed_in(replies[0]));
        lemma_with_entries(found, start, group.name, this, listed_in(replies[0]));
        lemma_versions_extend(next, start, group, version + 1, replies.drop_first());
    }
    assert(found =~= end.take(found.len() as int));
}

}
