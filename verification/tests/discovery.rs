use kubectl_ditto::discovery::{
    resolve_resource, ApiGroupEntry, ApiGroupList, ApiGroupVersion, ApiResourceEntry,
    ApiResourceList, DiscoveredResource, Discovery, Outcome, Reply, ResolveError, Stage,
};

fn entry(name: &str, singular: &str, kind: &str, short: &[&str]) -> ApiResourceEntry {
    ApiResourceEntry {
        name: name.to_string(),
        singular_name: singular.to_string(),
        namespaced: true,
        kind: kind.to_string(),
        short_names: short.iter().map(|s| s.to_string()).collect(),
    }
}

fn found(e: ApiResourceEntry, group: &str, version: &str) -> DiscoveredResource {
    DiscoveredResource {
        entry: e,
        group: group.to_string(),
        version: version.to_string(),
    }
}

fn cluster() -> Vec<DiscoveredResource> {
    vec![
        found(entry("pods", "pod", "Pod", &["po"]), "", "v1"),
        found(entry("services", "service", "Service", &["svc"]), "", "v1"),
        found(
            entry("deployments/status", "deployment", "Deployment", &[]),
            "apps",
            "v1",
        ),
        found(
            entry("deployments", "deployment", "Deployment", &["deploy"]),
            "apps",
            "v1",
        ),
        found(
            entry("certificates", "certificate", "Certificate", &["cert"]),
            "cert-manager.io",
            "v1",
        ),
        found(
            entry("certificates", "certificate", "Certificate", &[]),
            "other.io",
            "v2",
        ),
    ]
}

fn plural(input: &str) -> Option<(String, String)> {
    resolve_resource(&cluster(), input)
        .ok()
        .map(|r| (r.api_resource.plural, r.group))
}

fn is(plural: &str, group: &str) -> Option<(String, String)> {
    Some((plural.to_string(), group.to_string()))
}

#[test]
fn every_kind_of_name_resolves() {
    assert_eq!(plural("deployments"), is("deployments", "apps"));
    assert_eq!(plural("deployment"), is("deployments", "apps"));
    assert_eq!(plural("Deployment"), is("deployments", "apps"));
    assert_eq!(plural("deploy"), is("deployments", "apps"));
    assert_eq!(plural("svc"), is("services", ""));
}

#[test]
fn case_does_not_matter() {
    assert_eq!(plural("SVC"), plural("svc"));
    assert_eq!(plural("dePLOY"), is("deployments", "apps"));
    assert_eq!(plural("CERTIFICATES.Other.IO"), is("certificates", "other.io"));
}

#[test]
fn the_first_resource_that_answers_counts() {
    assert_eq!(plural("certificates"), is("certificates", "cert-manager.io"));
}

#[test]
fn a_qualified_name_picks_the_group() {
    assert_eq!(plural("certificates.other.io"), is("certificates", "other.io"));
    assert_eq!(
        plural("Certificate.cert-manager.io"),
        is("certificates", "cert-manager.io")
    );
    assert_eq!(plural("deployments.other.io"), None);
}

#[test]
fn short_names_are_not_qualified() {
    assert_eq!(plural("cert"), is("certificates", "cert-manager.io"));
    assert_eq!(plural("cert.cert-manager.io"), None);
}

#[test]
fn a_sub_resource_is_never_found() {
    assert_eq!(plural("deployments/status"), None);
    let only = vec![found(
        entry("deployments/status", "deployment", "Deployment", &[]),
        "apps",
        "v1",
    )];
    let e = resolve_resource(&only, "deployment").unwrap_err();
    assert_eq!(
        e,
        ResolveError::Unknown {
            input: "deployment".to_string(),
            discovered: 1
        }
    );
}

#[test]
fn all_of_the_resource_is_resolved() {
    let r = resolve_resource(&cluster(), "deploy").unwrap();
    assert_eq!(r.api_resource.kind, "Deployment");
    assert_eq!(r.api_resource.plural, "deployments");
    assert!(r.namespaced);
    assert_eq!(r.group, "apps");
    assert_eq!(r.version, "v1");
}

#[test]
fn an_unknown_name_is_reported() {
    let e = resolve_resource(&cluster(), "xyzzy").unwrap_err();
    assert_eq!(
        e.message(),
        "Could not find resource 'xyzzy' in the cluster (6 resources discovered). \
         Make sure the CRD is installed and you have access."
    );
}

#[test]
fn similar_names_are_suggested() {
    let e = resolve_resource(&cluster(), "Deploymen").unwrap_err();
    assert_eq!(
        e.message(),
        "Could not find resource 'Deploymen' in the cluster, but found similar resources:\n  \
         deployments (kind: Deployment, shortNames: [deploy])\n\
         Use the full resource name or a listed shortName."
    );
    // The input may also be the longer text.
    match resolve_resource(&cluster(), "mypodname").unwrap_err() {
        ResolveError::Similar { suggestions, .. } => {
            assert_eq!(suggestions, vec!["  pods (kind: Pod, shortNames: [po])".to_string()])
        }
        other => panic!("{other:?}"),
    }
}

#[test]
fn several_short_names_are_joined() {
    let list = vec![found(entry("things", "", "Thing", &["t1", "t2"]), "", "v1")];
    match resolve_resource(&list, "thin").unwrap_err() {
        ResolveError::Similar { suggestions, .. } => assert_eq!(
            suggestions,
            vec!["  things (kind: Thing, shortNames: [t1, t2])".to_string()]
        ),
        other => panic!("{other:?}"),
    }
}

fn group(name: &str, versions: &[&str]) -> ApiGroupEntry {
    ApiGroupEntry {
        name: name.to_string(),
        versions: versions
            .iter()
            .map(|v| ApiGroupVersion {
                group_version: format!("{name}/{v}"),
                version: v.to_string(),
            })
            .collect(),
    }
}

fn list(names: &[&str]) -> Reply {
    Reply::Resources(ApiResourceList {
        resources: names.iter().map(|n| entry(n, "", n, &[])).collect(),
    })
}

fn names(d: &Discovery) -> Vec<(String, String, String)> {
    d.found()
        .iter()
        .map(|r| (r.entry.name.clone(), r.group.clone(), r.version.clone()))
        .collect()
}

fn triple(name: &str, group: &str, version: &str) -> (String, String, String) {
    (name.to_string(), group.to_string(), version.to_string())
}

#[test]
fn all_resources_are_collected() {
    let mut d = Discovery::begin();
    assert_eq!(d.uri().as_deref(), Some("/api/v1"));
    assert_eq!(d.receive(list(&["pods", "services"])), Outcome::Going);
    assert_eq!(d.uri().as_deref(), Some("/apis"));
    let groups = ApiGroupList {
        groups: vec![
            group("empty", &[]),
            group("kyverno.io", &["v2", "v1"]),
            group("none", &[]),
            group("apps", &["v1"]),
        ],
    };
    assert_eq!(d.receive(Reply::Groups(groups)), Outcome::Going);
    assert_eq!(d.uri().as_deref(), Some("/apis/kyverno.io/v2"));
    assert_eq!(d.receive(list(&["clusterpolicies"])), Outcome::Going);
    assert_eq!(d.uri().as_deref(), Some("/apis/kyverno.io/v1"));
    assert_eq!(
        d.receive(list(&["clusterpolicies", "policies", "policies"])),
        Outcome::Going
    );
    assert_eq!(d.uri().as_deref(), Some("/apis/apps/v1"));
    // Names are kept apart by group only.
    assert_eq!(d.receive(list(&["policies", "pods"])), Outcome::Going);
    assert_eq!(d.uri(), None);
    assert!(d.request().is_none());
    assert_eq!(
        names(&d),
        vec![
            triple("pods", "", "v1"),
            triple("services", "", "v1"),
            triple("clusterpolicies", "kyverno.io", "v2"),
            triple("policies", "kyverno.io", "v1"),
            triple("policies", "apps", "v1"),
            triple("pods", "apps", "v1"),
        ]
    );
}

#[test]
fn the_core_api_is_not_deduplicated() {
    let mut d = Discovery::begin();
    d.receive(list(&["pods", "pods"]));
    assert_eq!(d.found().len(), 2);
}

#[test]
fn a_version_that_fails_is_skipped_with_a_warning() {
    let mut d = Discovery::begin();
    d.receive(list(&["pods"]));
    d.receive(Reply::Groups(ApiGroupList {
        groups: vec![group("metrics.k8s.io", &["v1beta1"]), group("apps", &["v1"])],
    }));
    assert_eq!(
        d.receive(Reply::Failed("timed out".to_string())),
        Outcome::Warned(
            "Warning: failed to discover resources for metrics.k8s.io/v1beta1: timed out"
                .to_string()
        )
    );
    assert_eq!(d.uri().as_deref(), Some("/apis/apps/v1"));
    assert_eq!(names(&d), vec![triple("pods", "", "v1")]);
}

#[test]
fn without_core_or_groups_there_is_nothing() {
    let mut d = Discovery::begin();
    assert_eq!(
        d.receive(Reply::Failed("no".to_string())),
        Outcome::Aborted("no".to_string())
    );
    d.receive(list(&[]));
    assert_eq!(
        d.receive(Reply::Failed("no".to_string())),
        Outcome::Aborted("no".to_string())
    );
}

#[test]
fn a_request_that_cannot_be_made_aborts() {
    let mut d = Discovery::begin();
    d.receive(list(&[]));
    d.receive(Reply::Groups(ApiGroupList {
        groups: vec![group("not a group", &["v 1"])],
    }));
    let error = match d.request() {
        Some(Err(error)) => error,
        other => panic!("{other:?}"),
    };
    assert_eq!(error, "invalid uri character");
    assert_eq!(
        d.receive(Reply::Unmade(error.clone())),
        Outcome::Aborted(error)
    );
}

#[test]
fn replies_have_to_fit() {
    let mut d = Discovery::begin();
    let groups = || Reply::Groups(ApiGroupList { groups: vec![] });
    assert_eq!(d.receive(groups()), Outcome::Misplaced);
    assert_eq!(d.stage(), Stage::Core);
    d.receive(list(&[]));
    assert_eq!(d.receive(list(&["pods"])), Outcome::Misplaced);
    assert_eq!(d.receive(groups()), Outcome::Going);
    assert_eq!(d.stage(), Stage::Done);
    assert_eq!(d.receive(Reply::Unmade("late".to_string())), Outcome::Misplaced);
}

#[test]
fn requests_go_to_the_addresses() {
    let mut d = Discovery::begin();
    let request = d.request().unwrap().unwrap();
    assert_eq!(request.uri().path(), "/api/v1");
    assert_eq!(request.method(), http::Method::GET);
    assert!(request.body().is_empty());
    d.receive(list(&[]));
    assert_eq!(d.request().unwrap().unwrap().uri().path(), "/apis");
}
