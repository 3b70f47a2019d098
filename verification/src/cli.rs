//! The command line.

use vstd::prelude::*;

use crate::text::{copy_text, opt_text};

verus! {

/// An argument of a command of `clap`.
#[verifier::external_type_specification]
#[verifier::external_body]
pub struct ExArg(clap::Arg);

/// A command of `clap`.
#[verifier::external_type_specification]
#[verifier::external_body]
pub struct ExCommand(clap::Command);

/// The values that `clap` has read.
#[verifier::external_type_specification]
#[verifier::external_body]
pub struct ExArgMatches(clap::ArgMatches);

/// A path of the file system.
#[verifier::external_type_specification]
#[verifier::external_body]
pub struct ExPathBuf(std::path::PathBuf);

/// Generate YAML for any Kubernetes resource or CRD using cluster schema and smart defaults.
#[derive(Debug, PartialEq, Eq)]
pub struct Args {
    /// Resource type (e.g. deployment, svc, certificates.cert-manager.io)
    pub resource: Option<String>,
    /// Resource name
    pub name: Option<String>,
    /// Namespace for the resource (omit for cluster-scoped resources)
    pub namespace: Option<String>,
    /// Path to the kubeconfig file to use
    pub kubeconfig: Option<std::path::PathBuf>,
    /// Name of the kubeconfig context to use
    pub context: Option<String>,
    /// Output only required fields (skip optional fields with defaults)
    pub minimal: bool,
    /// Include all optional fields (with defaults in output, or prompts with -i)
    pub full: bool,
    /// Interactively prompt for required field values
    pub interactive: bool,
    /// Suppress description comments in output
    pub no_comments: bool,
    /// Dump the raw OpenAPI schema JSON for the resource (debug)
    pub dump_schema: bool,
}

/// What the arguments are.
#[verifier::ext_equal]
pub struct ArgsView {
    pub resource: Option<Seq<char>>,
    pub name: Option<Seq<char>>,
    pub namespace: Option<Seq<char>>,
    pub kubeconfig: Option<std::path::PathBuf>,
    pub context: Option<Seq<char>>,
    pub minimal: bool,
    pub full: bool,
    pub interactive: bool,
    pub no_comments: bool,
    pub dump_schema: bool,
}

impl Args {
    pub open spec fn view(&self) -> ArgsView {
        ArgsView {
            resource: opt_text(self.resource),
            name: opt_text(self.name),
            namespace: opt_text(self.namespace),
            kubeconfig: self.kubeconfig,
            context: opt_text(self.context),
            minimal: self.minimal,
            full: self.full,
            interactive: self.interactive,
            no_comments: self.no_comments,
            dump_schema: self.dump_schema,
        }
    }
}

/// What sort of value an argument has.
#[derive(Debug, Clone, Copy, PartialEq, Eq, Structural)]
pub enum ValueSort {
    /// A text, or none.
    Text,
    /// A path, or none.
    Path,
    /// Whether it was given.
    Flag,
}

/// How an argument is given and explained. One without a short or a long name is positional.
pub struct ArgSpec {
    pub id: &'static str,
    pub value_name: Option<&'static str>,
    pub short: Option<char>,
    pub long: Option<&'static str>,
    pub alias: Option<&'static str>,
    pub help: &'static str,
}

/// What an argument is.
#[verifier::ext_equal]
pub struct ArgView {
    pub id: Seq<char>,
    pub value_name: Option<Seq<char>>,
    pub short: Option<char>,
    pub long: Option<Seq<char>>,
    pub alias: Option<Seq<char>>,
    pub help: Seq<char>,
    pub sort: ValueSort,
}

/// What a command is.
#[verifier::ext_equal]
pub struct CommandView {
    pub name: Seq<char>,
    pub version: Seq<char>,
    pub about: Seq<char>,
    pub args: Seq<ArgView>,
}

/// What an optional string slice holds.
pub open spec fn opt_static(s: Option<&'static str>) -> Option<Seq<char>> {
    match s {
        Some(t) => Some(t@),
        None => None,
    }
}

impl ArgSpec {
    /// The argument with a value of this sort.
    pub open spec fn of_sort(&self, sort: ValueSort) -> ArgView {
        ArgView {
            id: self.id@,
            value_name: opt_static(self.value_name),
            short: self.short,
            long: opt_static(self.long),
            alias: opt_static(self.alias),
            help: self.help@,
            sort,
        }
    }
}

/// The value of an argument.
#[derive(Debug, PartialEq, Eq)]
pub enum ArgValue {
    Text(Option<String>),
    Path(Option<std::path::PathBuf>),
    Flag(bool),
}

/// The value of an argument.
pub enum ArgValueView {
    Text(Option<Seq<char>>),
    Path(Option<std::path::PathBuf>),
    Flag(bool),
}

impl ArgValue {
    pub open spec fn view(&self) -> ArgValueView {
        match *self {
            ArgValue::Text(t) => ArgValueView::Text(opt_text(t)),
            ArgValue::Path(p) => ArgValueView::Path(p),
            ArgValue::Flag(b) => ArgValueView::Flag(b),
        }
    }
}

/// What the values of a list are.
pub open spec fn value_views(values: Seq<ArgValue>) -> Seq<ArgValueView> {
    values.map_values(|v: ArgValue| v@)
}

/// Whether a value is of a sort.
pub open spec fn is_of_sort(value: ArgValueView, sort: ValueSort) -> bool {
    match sort {
        ValueSort::Text => value is Text,
        ValueSort::Path => value is Path,
        ValueSort::Flag => value is Flag,
    }
}

/// Why the command line was not taken, or what else is to be shown in place of a run.
#[derive(Debug, PartialEq, Eq)]
pub struct CliError {
    pub message: String,
    /// The exit code of the program.
    pub code: i32,
    /// Whether the message is an error, as against a help text or a version.
    pub is_error: bool,
}

/// Why the command line was not taken.
pub struct CliErrorView {
    pub message: Seq<char>,
    pub code: i32,
    pub is_error: bool,
}

impl CliError {
    pub open spec fn view(&self) -> CliErrorView {
        CliErrorView { message: self.message@, code: self.code, is_error: self.is_error }
    }
}

/// What an argument of `clap` is.
pub uninterp spec fn arg_view(a: clap::Arg) -> ArgView;

/// What a command of `clap` is.
pub uninterp spec fn command_view(c: clap::Command) -> CommandView;

/// The values of arguments by their ids.
pub uninterp spec fn matches_view(m: clap::ArgMatches) -> Map<Seq<char>, ArgValueView>;

/// What `clap` reads on a command line for a command: the values of the arguments by their ids, or
/// what it says in place of them.
pub uninterp spec fn read_line(command: CommandView, argv: Seq<std::path::PathBuf>) -> Result<
    Map<Seq<char>, ArgValueView>,
    CliErrorView,
>;

/// `clap::Arg` with an action that sets a text. A hyphen is no short name: `clap::Arg::short` panics
/// on it where debug assertions are on.
#[verifier::external_body]
fn text_arg(s: ArgSpec) -> (r: clap::Arg)
    requires
        s.short != Some('-'),
    ensures
        arg_view(r) == s.of_sort(ValueSort::Text),
{
    clap::Arg::new(s.id)
        .value_name(s.value_name)
        .short(s.short)
        .long(s.long)
        .alias(s.alias)
        .help(s.help)
        .action(clap::ArgAction::Set)
        .value_parser(clap::builder::ValueParser::string())
}

/// `clap::Arg` with an action that sets a path. A hyphen is no short name.
#[verifier::external_body]
fn path_arg(s: ArgSpec) -> (r: clap::Arg)
    requires
        s.short != Some('-'),
    ensures
        arg_view(r) == s.of_sort(ValueSort::Path),
{
    clap::Arg::new(s.id)
        .value_name(s.value_name)
        .short(s.short)
        .long(s.long)
        .alias(s.alias)
        .help(s.help)
        .action(clap::ArgAction::Set)
        .value_parser(clap::builder::ValueParser::path_buf())
}

/// `clap::Arg` with an action that sets a flag. A hyphen is no short name.
#[verifier::external_body]
fn flag_arg(s: ArgSpec) -> (r: clap::Arg)
    requires
        s.short != Some('-'),
    ensures
        arg_view(r) == s.of_sort(ValueSort::Flag),
{
    clap::Arg::new(s.id)
        .value_name(s.value_name)
        .short(s.short)
        .long(s.long)
        .alias(s.alias)
        .help(s.help)
        .action(clap::ArgAction::SetTrue)
}

/// What the arguments of a list are.
pub open spec fn arg_views(args: Seq<clap::Arg>) -> Seq<ArgView> {
    args.map_values(|a: clap::Arg| arg_view(a))
}

/// `clap::Command` with a version, an explanation and arguments.
#[verifier::external_body]
fn new_command(
    name: &'static str,
    version: &'static str,
    about: &'static str,
    args: Vec<clap::Arg>,
) -> (r: clap::Command)
    ensures
        command_view(r) == (CommandView {
            name: name@,
            version: version@,
            about: about@,
            args: arg_views(args@),
        }),
{
    clap::Command::new(name).version(version).about(about).args(args)
}

/// The arguments of the command.
pub open spec fn arguments() -> Seq<ArgView> {
    seq![
        ArgView {
            id: "resource"@,
            value_name: Some("RESOURCE"@),
            short: None,
            long: None,
            alias: None,
            help: "Resource type (e.g. deployment, svc, certificates.cert-manager.io)"@,
            sort: ValueSort::Text,
        },
        ArgView {
            id: "name"@,
            value_name: Some("NAME"@),
            short: None,
            long: None,
            alias: None,
            help: "Resource name"@,
            sort: ValueSort::Text,
        },
        ArgView {
            id: "namespace"@,
            value_name: Some("NAMESPACE"@),
            short: Some('n'),
            long: Some("namespace"@),
            alias: None,
            help: "Namespace for the resource (omit for cluster-scoped resources)"@,
            sort: ValueSort::Text,
        },
        ArgView {
            id: "kubeconfig"@,
            value_name: Some("KUBECONFIG"@),
            short: None,
            long: Some("kubeconfig"@),
            alias: None,
            help: "Path to the kubeconfig file to use"@,
            sort: ValueSort::Path,
        },
        ArgView {
            id: "context"@,
            value_name: Some("CONTEXT"@),
            short: None,
            long: Some("context"@),
            alias: None,
            help: "Name of the kubeconfig context to use"@,
            sort: ValueSort::Text,
        },
        ArgView {
            id: "minimal"@,
            value_name: None,
            short: None,
            long: Some("minimal"@),
            alias: None,
            help: "Output only required fields (skip optional fields with defaults)"@,
            sort: ValueSort::Flag,
        },
        ArgView {
            id: "full"@,
            value_name: None,
            short: None,
            long: Some("full"@),
            alias: Some("all-fields"@),
            help: "Include all optional fields (with defaults in output, or prompts with -i)"@,
            sort: ValueSort::Flag,
        },
        ArgView {
            id: "interactive"@,
            value_name: None,
            short: Some('i'),
            long: Some("interactive"@),
            alias: None,
            help: "Interactively prompt for required field values"@,
            sort: ValueSort::Flag,
        },
        ArgView {
            id: "no_comments"@,
            value_name: None,
            short: None,
            long: Some("no-comments"@),
            alias: None,
            help: "Suppress description comments in output"@,
            sort: ValueSort::Flag,
        },
        ArgView {
            id: "dump_schema"@,
            value_name: None,
            short: None,
            long: Some("dump-schema"@),
            alias: None,
            help: "Dump the raw OpenAPI schema JSON for the resource (debug)"@,
            sort: ValueSort::Flag,
        },
    ]
}

/// The command.
pub open spec fn ditto() -> CommandView {
    CommandView {
        name: "kubectl-ditto"@,
        version: "0.2.0"@,
        about: "Generate YAML for any Kubernetes resource or CRD using cluster schema and smart defaults"@,
        args: arguments(),
    }
}

fn positional(id: &'static str, value_name: &'static str, help: &'static str) -> (r: ArgSpec)
    ensures
        r.short is None,
        r.of_sort(ValueSort::Text) == (ArgView {
            id: id@,
            value_name: Some(value_name@),
            short: None,
            long: None,
            alias: None,
            help: help@,
            sort: ValueSort::Text,
        }),
{
    ArgSpec { id, value_name: Some(value_name), short: None, long: None, alias: None, help }
}

fn flag(
    id: &'static str,
    short: Option<char>,
    long: &'static str,
    alias: Option<&'static str>,
    help: &'static str,
) -> (r: ArgSpec)
    ensures
        r.short == short,
        r.of_sort(ValueSort::Flag) == (ArgView {
            id: id@,
            value_name: None,
            short,
            long: Some(long@),
            alias: opt_static(alias),
            help: help@,
            sort: ValueSort::Flag,
        }),
{
    ArgSpec { id, value_name: None, short, long: Some(long), alias, help }
}

fn ditto_args() -> (r: Vec<clap::Arg>)
    ensures
        arg_views(r@) == arguments(),
{
    let mut r: Vec<clap::Arg> = Vec::new();
    r.push(
        text_arg(
            positional(
                "resource",
                "RESOURCE",
                "Resource type (e.g. deployment, svc, certificates.cert-manager.io)",
            ),
        ),
    );
    r.push(text_arg(positional("name", "NAME", "Resource name")));
    r.push(
        text_arg(
            ArgSpec {
                id: "namespace",
                value_name: Some("NAMESPACE"),
                short: Some('n'),
                long: Some("namespace"),
                alias: None,
                help: "Namespace for the resource (omit for cluster-scoped resources)",
            },
        ),
    );
    r.push(
        path_arg(
            ArgSpec {
                id: "kubeconfig",
                value_name: Some("KUBECONFIG"),
                short: None,
                long: Some("kubeconfig"),
                alias: None,
                help: "Path to the kubeconfig file to use",
            },
        ),
    );
    r.push(
        text_arg(
            ArgSpec {
                id: "context",
                value_name: Some("CONTEXT"),
                short: None,
                long: Some("context"),
                alias: None,
                help: "Name of the kubeconfig context to use",
            },
        ),
    );
    r.push(
        flag_arg(
            flag(
                "minimal",
                None,
                "minimal",
                None,
                "Output only required fields (skip optional fields with defaults)",
            ),
        ),
    );
    r.push(
        flag_arg(
            flag(
                "full",
                None,
                "full",
                Some("all-fields"),
                "Include all optional fields (with defaults in output, or prompts with -i)",
            ),
        ),
    );
    r.push(
        flag_arg(
            flag(
                "interactive",
                Some('i'),
                "interactive",
                None,
                "Interactively prompt for required field values",
            ),
        ),
    );
    r.push(
        flag_arg(
            flag(
                "no_comments",
                None,
                "no-comments",
                None,
                "Suppress description comments in output",
            ),
        ),
    );
    r.push(
        flag_arg(
            flag(
                "dump_schema",
                None,
                "dump-schema",
                None,
                "Dump the raw OpenAPI schema JSON for the resource (debug)",
            ),
        ),
    );
    proof {
        assert(arg_views(r@) =~= arguments());
    }
    r
}

/// Whether there is a value of the right sort for each argument.
pub open spec fn has_all(values: Map<Seq<char>, ArgValueView>, args: Seq<ArgView>) -> bool {
    forall|i: int|
        0 <= i < args.len() ==> values.contains_key((#[trigger] args[i]).id) && is_of_sort(
            values[args[i].id],
            args[i].sort,
        )
}

/// `clap::Command::try_get_matches_from`: what it reads is named `read_line`, and so is what it says
/// in place of that: the text of its error, `clap::Error::exit_code` and `clap::Error::use_stderr`.
/// There is a value for each argument of the command. The command is this one: of others `clap` asks
/// that their arguments go together.
#[verifier::external_body]
fn read_args(command: clap::Command, argv: Vec<std::path::PathBuf>) -> (r: Result<
    clap::ArgMatches,
    CliError,
>)
    requires
        command_view(command) == ditto(),
    ensures
        match r {
            Ok(m) => read_line(ditto(), argv@) == Ok::<
                Map<Seq<char>, ArgValueView>,
                CliErrorView,
            >(matches_view(m)) && has_all(matches_view(m), arguments()),
            Err(e) => read_line(ditto(), argv@) == Err::<
                Map<Seq<char>, ArgValueView>,
                CliErrorView,
            >(e@),
        },
{
    command.try_get_matches_from(argv).map_err(
        |e| CliError { message: e.to_string(), code: e.exit_code(), is_error: e.use_stderr() },
    )
}

/// `clap::ArgMatches::get_one` for a text.
#[verifier::external_body]
fn text_value(m: &clap::ArgMatches, id: &str) -> (r: Option<String>)
    requires
        matches_view(*m).contains_key(id@),
        matches_view(*m)[id@] is Text,
    ensures
        matches_view(*m)[id@] == ArgValueView::Text(opt_text(r)),
{
    m.get_one::<String>(id).cloned()
}

/// `clap::ArgMatches::get_one` for a path.
#[verifier::external_body]
fn path_value(m: &clap::ArgMatches, id: &str) -> (r: Option<std::path::PathBuf>)
    requires
        matches_view(*m).contains_key(id@),
        matches_view(*m)[id@] is Path,
    ensures
        matches_view(*m)[id@] == ArgValueView::Path(r),
{
    m.get_one::<std::path::PathBuf>(id).cloned()
}

/// `clap::ArgMatches::get_flag`.
#[verifier::external_body]
fn flag_value(m: &clap::ArgMatches, id: &str) -> (r: bool)
    requires
        matches_view(*m).contains_key(id@),
        matches_view(*m)[id@] is Flag,
    ensures
        matches_view(*m)[id@] == ArgValueView::Flag(r),
{
    m.get_flag(id)
}

/// The values of the arguments in their order.
pub open spec fn in_order(values: Map<Seq<char>, ArgValueView>) -> Seq<ArgValueView> {
    arguments().map_values(|a: ArgView| values[a.id])
}

/// The arguments that some values make, if there is one of the right sort for each.
pub open spec fn args_of(values: Seq<ArgValueView>) -> Option<ArgsView> {
    if values.len() == arguments().len() && (forall|i: int|
        0 <= i < values.len() ==> is_of_sort(#[trigger] values[i], arguments()[i].sort)) {
        Some(
            ArgsView {
                resource: values[0]->Text_0,
                name: values[1]->Text_0,
                namespace: values[2]->Text_0,
                kubeconfig: values[3]->Path_0,
                context: values[4]->Text_0,
                minimal: values[5]->Flag_0,
                full: values[6]->Flag_0,
                interactive: values[7]->Flag_0,
                no_comments: values[8]->Flag_0,
                dump_schema: values[9]->Flag_0,
            },
        )
    } else {
        None
    }
}

/// What the command line says: the arguments, or why it was not taken.
pub open spec fn parsed(argv: Seq<std::path::PathBuf>) -> Result<ArgsView, CliErrorView> {
    match read_line(ditto(), argv) {
        Ok(values) => Ok(args_of(in_order(values))->0),
        Err(e) => Err(e),
    }
}

/// The client to talk to the API server with.
pub enum ClientSource<'a> {
    /// The one of the surroundings.
    Inferred,
    /// One from a kubeconfig file, for a context of it or for the current one.
    File { path: &'a std::path::PathBuf, context: Option<String> },
    /// One from the usual kubeconfig, for a context of it.
    Usual { context: Option<String> },
}

/// The client to talk to the API server with.
pub enum ClientSourceView {
    Inferred,
    File { path: std::path::PathBuf, context: Option<Seq<char>> },
    Usual { context: Option<Seq<char>> },
}

impl<'a> ClientSource<'a> {
    pub open spec fn view(&self) -> ClientSourceView {
        match *self {
            ClientSource::Inferred => ClientSourceView::Inferred,
            ClientSource::File { path, context } => ClientSourceView::File {
                path: *path,
                context: opt_text(context),
            },
            ClientSource::Usual { context } => ClientSourceView::Usual {
                context: opt_text(context),
            },
        }
    }
}

/// The client that the arguments ask for.
pub open spec fn client_of(args: ArgsView) -> ClientSourceView {
    match (args.kubeconfig, args.context) {
        (None, None) => ClientSourceView::Inferred,
        (Some(path), context) => ClientSourceView::File { path, context },
        (None, context) => ClientSourceView::Usual { context },
    }
}

fn pop_text(values: &mut Vec<ArgValue>) -> (r: Option<Option<String>>)
    ensures
        match r {
            Some(t) => {
                &&& old(values)@.len() > 0
                &&& old(values)@.last()@ == ArgValueView::Text(opt_text(t))
                &&& final(values)@ == old(values)@.drop_last()
            },
            None => old(values)@.len() == 0 || !(old(values)@.last()@ is Text),
        },
{
    match values.pop() {
        Some(ArgValue::Text(t)) => Some(t),
        _ => None,
    }
}

fn pop_path(values: &mut Vec<ArgValue>) -> (r: Option<Option<std::path::PathBuf>>)
    ensures
        match r {
            Some(p) => {
                &&& old(values)@.len() > 0
                &&& old(values)@.last()@ == ArgValueView::Path(p)
                &&& final(values)@ == old(values)@.drop_last()
            },
            None => old(values)@.len() == 0 || !(old(values)@.last()@ is Path),
        },
{
    match values.pop() {
        Some(ArgValue::Path(p)) => Some(p),
        _ => None,
    }
}

fn pop_flag(values: &mut Vec<ArgValue>) -> (r: Option<bool>)
    ensures
        match r {
            Some(b) => {
                &&& old(values)@.len() > 0
                &&& old(values)@.last()@ == ArgValueView::Flag(b)
                &&& final(values)@ == old(values)@.drop_last()
            },
            None => old(values)@.len() == 0 || !(old(values)@.last()@ is Flag),
        },
{
    match values.pop() {
        Some(ArgValue::Flag(b)) => Some(b),
        _ => None,
    }
}

fn from_reversed(values: &mut Vec<ArgValue>) -> (r: Option<Args>)
    requires
        old(values)@.len() == arguments().len(),
    ensures
        match r {
            Some(args) => args_of(value_views(old(values)@)) == Some(args@),
            None => args_of(value_views(old(values)@)) is None,
        },
{
    let ghost all = value_views(values@);
    proof {
        assert(forall|i: int| 0 <= i < all.len() ==> all[i] == values@[i]@);
        assert(arguments()[9].sort == ValueSort::Flag && arguments()[8].sort == ValueSort::Flag
            && arguments()[7].sort == ValueSort::Flag && arguments()[6].sort == ValueSort::Flag
            && arguments()[5].sort == ValueSort::Flag && arguments()[4].sort == ValueSort::Text
            && arguments()[3].sort == ValueSort::Path && arguments()[2].sort == ValueSort::Text
            && arguments()[1].sort == ValueSort::Text && arguments()[0].sort == ValueSort::Text);
    }
    let dump_schema: bool = pop_flag(values)?;
    let no_comments: bool = pop_flag(values)?;
    let interactive: bool = pop_flag(values)?;
    let full: bool = pop_flag(values)?;
    let minimal: bool = pop_flag(values)?;
    let context: Option<String> = pop_text(values)?;
    let kubeconfig: Option<std::path::PathBuf> = pop_path(values)?;
    let namespace: Option<String> = pop_text(values)?;
    let name: Option<String> = pop_text(values)?;
    let resource: Option<String> = pop_text(values)?;
    Some(
        Args {
            resource,
            name,
            namespace,
            kubeconfig,
            context,
            minimal,
            full,
            interactive,
            no_comments,
            dump_schema,
        },
    )
}

impl Args {
    /// The arguments that some values make, if there is one of the right sort for each.
    pub fn from_values(values: Vec<ArgValue>) -> (r: Option<Args>)
        ensures
            match r {
                Some(args) => args_of(value_views(values@)) == Some(args@),
                None => args_of(value_views(values@)) is None,
            },
    {
        let mut values: Vec<ArgValue> = values;
        if values.len() != 10 {
            return None;
        }
        from_reversed(&mut values)
    }

    /// The arguments on a command line, the first member of which is the name of the program. The
    /// members are paths, since what the system hands out need not be text.
    pub fn parse_from(argv: Vec<std::path::PathBuf>) -> (r: Result<Args, CliError>)
        ensures
            match r {
                Ok(args) => parsed(argv@) == Ok::<ArgsView, CliErrorView>(args@),
                Err(e) => parsed(argv@) == Err::<ArgsView, CliErrorView>(e@),
            },
    {
        let command: clap::Command = new_command(
            "kubectl-ditto",
            "0.2.0",
            "Generate YAML for any Kubernetes resource or CRD using cluster schema and smart defaults",
            ditto_args(),
        );
        let m: clap::ArgMatches = match read_args(command, argv) {
            Ok(m) => m,
            Err(e) => {
                return Err(e);
            },
        };
        let ghost values = matches_view(m);
        proof {
            assert(forall|i: int|
                0 <= i < arguments().len() ==> is_of_sort(
                    #[trigger] in_order(values)[i],
                    arguments()[i].sort,
                ));
            let a = arguments();
            assert(a[0].id == "resource"@ && a[1].id == "name"@ && a[2].id == "namespace"@
                && a[3].id == "kubeconfig"@ && a[4].id == "context"@);
            assert(a[5].id == "minimal"@ && a[6].id == "full"@ && a[7].id == "interactive"@
                && a[8].id == "no_comments"@ && a[9].id == "dump_schema"@);
        }
        let mut list: Vec<ArgValue> = Vec::new();
        list.push(ArgValue::Text(text_value(&m, "resource")));
        list.push(ArgValue::Text(text_value(&m, "name")));
        list.push(ArgValue::Text(text_value(&m, "namespace")));
        list.push(ArgValue::Path(path_value(&m, "kubeconfig")));
        list.push(ArgValue::Text(text_value(&m, "context")));
        list.push(ArgValue::Flag(flag_value(&m, "minimal")));
        list.push(ArgValue::Flag(flag_value(&m, "full")));
        list.push(ArgValue::Flag(flag_value(&m, "interactive")));
        list.push(ArgValue::Flag(flag_value(&m, "no_comments")));
        list.push(ArgValue::Flag(flag_value(&m, "dump_schema")));
        proof {
            assert(value_views(list@) =~= in_order(values));
        }
        Ok(Args::from_values(list).unwrap())
    }

    /// The client that the arguments ask for: without a kubeconfig and a context the one of the
    /// surroundings, else one from the kubeconfig file, or from the usual one, for the context.
    pub fn client_source(&self) -> (r: ClientSource<'_>)
        ensures
            r@ == client_of(self@),
    {
        let context: Option<String> = copy_text(&self.context);
        match &self.kubeconfig {
            Some(path) => ClientSource::File { path, context },
            None => match context {
                Some(_) => ClientSource::Usual { context },
                None => ClientSource::Inferred,
            },
        }
    }
}

}
