//! What the command line says.

use vstd::prelude::*;

use crate::cli::{
    args_of, arguments, client_of, ditto, has_all, in_order, parsed, read_line, ArgValueView,
    ArgsView, CliErrorView, ClientSourceView, ValueSort,
};

verus! {

/// Each argument has the value that stands on the command line under its own name.
pub proof fn lemma_arguments_by_name(
    argv: Seq<std::path::PathBuf>,
    values: Map<Seq<char>, ArgValueView>,
)
    requires
        read_line(ditto(), argv) == Ok::<Map<Seq<char>, ArgValueView>, CliErrorView>(values),
        has_all(values, arguments()),
    ensures
        match parsed(argv) {
            Ok(args) => {
                &&& values["resource"@] == ArgValueView::Text(args.resource)
                &&& values["name"@] == ArgValueView::Text(args.name)
                &&& values["namespace"@] == ArgValueView::Text(args.namespace)
                &&& values["kubeconfig"@] == ArgValueView::Path(args.kubeconfig)
                &&& values["context"@] == ArgValueView::Text(args.context)
                &&& values["minimal"@] == ArgValueView::Flag(args.minimal)
                &&& values["full"@] == ArgValueView::Flag(args.full)
                &&& values["interactive"@] == ArgValueView::Flag(args.interactive)
                &&& values["no_comments"@] == ArgValueView::Flag(args.no_comments)
                &&& values["dump_schema"@] == ArgValueView::Flag(args.dump_schema)
            },
            Err(_) => false,
        },
{
    let a = arguments();
    let v = in_order(values);
    assert(a[0].id == "resource"@ && a[1].id == "name"@ && a[2].id == "namespace"@ && a[3].id
        == "kubeconfig"@ && a[4].id == "context"@);
    assert(a[5].id == "minimal"@ && a[6].id == "full"@ && a[7].id == "interactive"@ && a[8].id
        == "no_comments"@ && a[9].id == "dump_schema"@);
    assert(v.len() == a.len());
    assert forall|i: int| 0 <= i < v.len() implies crate::cli::is_of_sort(
        #[trigger] v[i],
        a[i].sort,
    ) && v[i] == values[a[i].id] by {
        assert(values.contains_key(a[i].id));
    }
    assert(v[0] == values["resource"@] && v[1] == values["name"@] && v[2] == values["namespace"@]);
    assert(v[3] == values["kubeconfig"@] && v[4] == values["context"@]);
    assert(v[5] == values["minimal"@] && v[6] == values["full"@] && v[7] == values["interactive"@]);
    assert(v[8] == values["no_comments"@] && v[9] == values["dump_schema"@]);
}

/// What the command line is not taken for is told as it is.
pub proof fn lemma_refusal_told(argv: Seq<std::path::PathBuf>, e: CliErrorView)
    requires
        read_line(ditto(), argv) == Err::<Map<Seq<char>, ArgValueView>, CliErrorView>(e),
    ensures
        parsed(argv) == Err::<ArgsView, CliErrorView>(e),
{
}

/// Values make arguments if and only if there is one of the right sort for each of them; each has
/// the value at its place.
pub proof fn lemma_values_make_arguments(values: Seq<ArgValueView>)
    ensures
        match args_of(values) {
            Some(args) => values == seq![
                ArgValueView::Text(args.resource),
                ArgValueView::Text(args.name),
                ArgValueView::Text(args.namespace),
                ArgValueView::Path(args.kubeconfig),
                ArgValueView::Text(args.context),
                ArgValueView::Flag(args.minimal),
                ArgValueView::Flag(args.full),
                ArgValueView::Flag(args.interactive),
                ArgValueView::Flag(args.no_comments),
                ArgValueView::Flag(args.dump_schema),
            ],
            None => !(values.len() == 10 && values[0] is Text && values[1] is Text && values[2]
                is Text && values[3] is Path && values[4] is Text && values[5] is Flag && values[6]
                is Flag && values[7] is Flag && values[8] is Flag && values[9] is Flag),
        },
{
    let a = arguments();
    assert(a[0].sort == ValueSort::Text && a[1].sort == ValueSort::Text && a[2].sort
        == ValueSort::Text && a[3].sort == ValueSort::Path && a[4].sort == ValueSort::Text);
    assert(a[5].sort == ValueSort::Flag && a[6].sort == ValueSort::Flag && a[7].sort
        == ValueSort::Flag && a[8].sort == ValueSort::Flag && a[9].sort == ValueSort::Flag);
    match args_of(values) {
        Some(args) => {
            assert(forall|i: int|
                0 <= i < values.len() ==> crate::cli::is_of_sort(
                    #[trigger] values[i],
                    arguments()[i].sort,
                ));
            assert(values[0] is Text && values[1] is Text && values[2] is Text && values[3] is Path
                && values[4] is Text && values[5] is Flag && values[6] is Flag && values[7] is Flag
                && values[8] is Flag && values[9] is Flag);
            assert(values =~= seq![
                ArgValueView::Text(args.resource),
                ArgValueView::Text(args.name),
                ArgValueView::Text(args.namespace),
                ArgValueView::Path(args.kubeconfig),
                ArgValueView::Text(args.context),
                ArgValueView::Flag(args.minimal),
                ArgValueView::Flag(args.full),
                ArgValueView::Flag(args.interactive),
                ArgValueView::Flag(args.no_comments),
                ArgValueView::Flag(args.dump_schema),
            ]);
        },
        None => {},
    }
}

/// The names under which the arguments are given.
pub proof fn lemma_argument_names()
    ensures
        arguments().len() == 10,
        forall|i: int|
            0 <= i < 2 ==> (#[trigger] arguments()[i]).short is None && arguments()[i].long is None,
        arguments()[0].id == "resource"@ && arguments()[1].id == "name"@,
        arguments()[2].long == Some("namespace"@) && arguments()[2].short == Some('n'),
        arguments()[3].long == Some("kubeconfig"@) && arguments()[3].sort == ValueSort::Path,
        arguments()[4].long == Some("context"@),
        arguments()[5].long == Some("minimal"@),
        arguments()[6].long == Some("full"@) && arguments()[6].alias == Some("all-fields"@),
        arguments()[7].long == Some("interactive"@) && arguments()[7].short == Some('i'),
        arguments()[8].long == Some("no-comments"@),
        arguments()[9].long == Some("dump-schema"@),
{
}

/// A kubeconfig that is given is the one that is used, for the context that is given or its current
/// one. With a context alone the usual kubeconfig is used for it, and with neither what surrounds
/// the program decides.
pub proof fn lemma_client_asked_for(args: ArgsView)
    ensures
        match client_of(args) {
            ClientSourceView::File { path, context } => args.kubeconfig == Some(path) && context
                == args.context,
            ClientSourceView::Usual { context } => args.kubeconfig is None && args.context is Some
                && context == args.context,
            ClientSourceView::Inferred => args.kubeconfig is None && args.context is None,
        },
{
}

}
