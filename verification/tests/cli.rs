use std::path::PathBuf;

use kubectl_ditto::cli::{ArgValue, Args, ClientSource};

fn argv(args: &[&str]) -> Vec<PathBuf> {
    args.iter().map(PathBuf::from).collect()
}

fn parse(args: &[&str]) -> Args {
    Args::parse_from(argv(args)).unwrap()
}

#[test]
fn test_parses_kubeconfig_and_context_flags() {
    let args = Args::parse_from(argv(&[
        "kubectl-ditto",
        "--kubeconfig",
        "/tmp/kubeconfig",
        "--context",
        "production",
        "deployment",
        "my-app",
    ]))
    .unwrap();

    assert_eq!(args.kubeconfig, Some(PathBuf::from("/tmp/kubeconfig")));
    assert_eq!(args.context.as_deref(), Some("production"));
    assert_eq!(args.resource.as_deref(), Some("deployment"));
    assert_eq!(args.name.as_deref(), Some("my-app"));
}

#[test]
fn test_parses_context_without_custom_kubeconfig() {
    let args = Args::parse_from(argv(&[
        "kubectl-ditto",
        "--context",
        "staging",
        "deployment",
    ]))
    .unwrap();

    assert_eq!(args.kubeconfig, None);
    assert_eq!(args.context.as_deref(), Some("staging"));
    assert_eq!(args.resource.as_deref(), Some("deployment"));
}

#[test]
fn nothing_but_the_program_leaves_everything_unset() {
    let args = parse(&["kubectl-ditto"]);
    assert_eq!(
        args,
        Args {
            resource: None,
            name: None,
            namespace: None,
            kubeconfig: None,
            context: None,
            minimal: false,
            full: false,
            interactive: false,
            no_comments: false,
            dump_schema: false,
        }
    );
}

#[test]
fn every_flag_sets_its_own_field() {
    assert!(parse(&["kubectl-ditto", "--minimal"]).minimal);
    assert!(parse(&["kubectl-ditto", "--full"]).full);
    assert!(parse(&["kubectl-ditto", "--all-fields"]).full);
    assert!(parse(&["kubectl-ditto", "-i"]).interactive);
    assert!(parse(&["kubectl-ditto", "--interactive"]).interactive);
    assert!(parse(&["kubectl-ditto", "--no-comments"]).no_comments);
    assert!(parse(&["kubectl-ditto", "--dump-schema"]).dump_schema);
    let args = parse(&["kubectl-ditto", "--no-comments"]);
    assert!(!args.minimal && !args.full && !args.interactive && !args.dump_schema);
}

#[test]
fn the_namespace_has_a_short_and_a_long_name() {
    let short = parse(&["kubectl-ditto", "deployment", "-n", "web", "my-app"]);
    let long = parse(&["kubectl-ditto", "deployment", "--namespace", "web", "my-app"]);
    assert_eq!(short.namespace.as_deref(), Some("web"));
    assert_eq!(short, long);
}

#[test]
fn help_and_version_are_no_errors() {
    let help = Args::parse_from(argv(&["kubectl-ditto", "--help"])).unwrap_err();
    assert!(!help.is_error);
    assert_eq!(help.code, 0);
    assert!(help.message.contains(
        "Generate YAML for any Kubernetes resource or CRD using cluster schema and smart defaults"
    ));
    assert!(help.message.contains("[RESOURCE]"));
    assert!(help.message.contains("--kubeconfig <KUBECONFIG>"));
    assert!(help.message.contains("Suppress description comments in output"));
    assert!(!help.message.contains("all-fields"));
    let version = Args::parse_from(argv(&["kubectl-ditto", "--version"])).unwrap_err();
    assert!(!version.is_error);
    assert_eq!(version.message, "kubectl-ditto 0.2.0\n");
}

#[test]
fn an_unknown_flag_is_an_error() {
    let e = Args::parse_from(argv(&["kubectl-ditto", "--nope"])).unwrap_err();
    assert!(e.is_error);
    assert_eq!(e.code, 2);
    assert!(e.message.contains("--nope"));
}

#[test]
fn a_third_positional_is_an_error() {
    let e = Args::parse_from(argv(&["kubectl-ditto", "a", "b", "c"])).unwrap_err();
    assert!(e.is_error);
}

#[test]
fn an_empty_path_is_an_error() {
    let e = Args::parse_from(argv(&["kubectl-ditto", "--kubeconfig", ""])).unwrap_err();
    assert!(e.is_error);
    // An empty text is a text.
    let args = parse(&["kubectl-ditto", "--context", ""]);
    assert_eq!(args.context.as_deref(), Some(""));
}

fn values() -> Vec<ArgValue> {
    vec![
        ArgValue::Text(Some("deploy".to_string())),
        ArgValue::Text(None),
        ArgValue::Text(Some("web".to_string())),
        ArgValue::Path(Some(PathBuf::from("/k"))),
        ArgValue::Text(None),
        ArgValue::Flag(false),
        ArgValue::Flag(true),
        ArgValue::Flag(false),
        ArgValue::Flag(true),
        ArgValue::Flag(false),
    ]
}

#[test]
fn values_are_taken_in_order() {
    let args = Args::from_values(values()).unwrap();
    assert_eq!(args.resource.as_deref(), Some("deploy"));
    assert_eq!(args.name, None);
    assert_eq!(args.namespace.as_deref(), Some("web"));
    assert_eq!(args.kubeconfig, Some(PathBuf::from("/k")));
    assert_eq!(args.context, None);
    assert!(!args.minimal && args.full && !args.interactive && args.no_comments);
    assert!(!args.dump_schema);
}

#[test]
fn values_that_do_not_fit_make_no_arguments() {
    let mut short = values();
    short.pop();
    assert!(Args::from_values(short).is_none());
    let mut wrong = values();
    wrong[3] = ArgValue::Text(None);
    assert!(Args::from_values(wrong).is_none());
}

#[test]
fn the_client_follows_from_kubeconfig_and_context() {
    assert!(matches!(
        parse(&["kubectl-ditto", "pod"]).client_source(),
        ClientSource::Inferred
    ));
    let args = parse(&["kubectl-ditto", "--context", "staging", "pod"]);
    match args.client_source() {
        ClientSource::Usual { context } => assert_eq!(context.as_deref(), Some("staging")),
        _ => panic!("not the usual kubeconfig"),
    }
    let args = parse(&["kubectl-ditto", "--kubeconfig", "/k", "pod"]);
    match args.client_source() {
        ClientSource::File { path, context } => {
            assert_eq!(path, &PathBuf::from("/k"));
            assert_eq!(context, None);
        }
        _ => panic!("not a kubeconfig file"),
    };
    let args = parse(&["kubectl-ditto", "--kubeconfig", "/k", "--context", "c", "pod"]);
    match args.client_source() {
        ClientSource::File { context, .. } => assert_eq!(context.as_deref(), Some("c")),
        _ => panic!("not a kubeconfig file"),
    };
}
