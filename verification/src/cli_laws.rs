//! What holds of the command line.

use vstd::prelude::*;
use vstd::utf8::encode_utf8;

use crate::cli::{
    asks_for, cli_of, directory_failure_text, given_in, launch_values, paths_argument,
    program_shape, serve_shape, serve_values, task_of, timeout_argument, Cli, CliView, Commands,
    Given, Matches, MatchesView, RejectionView, ServeArgs, ServeView, Surroundings, Task,
    UsageError, ValueKind, DEFAULT_SHUTDOWN_TIMEOUT_SECONDS,
};
use crate::load_error::{lemma_names, names};
use crate::os_path::{all_path_bytes, path_bytes};
use crate::path::PathView;
use crate::text::decimal;

verus! {

/// Whether some arguments are taken, and for this command line.
pub open spec fn reads_as(arguments: Seq<Seq<u8>>, cli: CliView) -> bool {
    exists|given: Given| #[trigger]
        asks_for(arguments, given) && cli_of(given) == Ok::<CliView, UsageError>(cli)
}

/// Whether there are some values, none of them empty or with `-` before it.
pub open spec fn are_values(values: Seq<Seq<u8>>) -> bool {
    &&& values.len() > 0
    &&& forall|i: int|
        0 <= i < values.len() ==> (#[trigger] values[i]).len() > 0 && values[i][0] != 0x2d
}

/// Paths alone are compared in the directory that the program was started in.
pub proof fn lemma_paths_are_compared(program: Seq<u8>, paths: Seq<Seq<u8>>)
    requires
        are_values(paths),
        paths[0] != encode_utf8("serve"@),
        paths[0] != encode_utf8("help"@),
    ensures
        reads_as(
            seq![program] + paths,
            CliView { serve: None, directory: None, paths },
        ),
{
    let arguments = seq![program] + paths;
    let given = launch_values(Seq::empty(), paths);
    assert(arguments.skip(1) =~= paths);
    assert forall|i: int| 1 <= i < arguments.len() implies (#[trigger] arguments[i]).len() > 0
        && arguments[i][0] != 0x2d by {
        assert(arguments[i] == paths[i - 1]);
    }
    assert(asks_for(arguments, given));
}

/// After `-C` and a directory, paths are compared in that directory, whatever they
/// are and however many.
pub proof fn lemma_directory_is_taken(program: Seq<u8>, directory: Seq<u8>, paths: Seq<Seq<u8>>)
    requires
        directory.len() > 0 && directory[0] != 0x2d,
        are_values(paths),
        paths[0] != encode_utf8("serve"@),
        paths[0] != encode_utf8("help"@),
    ensures
        reads_as(
            seq![program, encode_utf8("-C"@), directory] + paths,
            CliView { serve: None, directory: Some(directory), paths },
        ),
{
    let arguments = seq![program, encode_utf8("-C"@), directory] + paths;
    let given = launch_values(seq![directory], paths);
    assert(arguments.skip(3) =~= paths);
    assert forall|i: int| 3 <= i < arguments.len() implies (#[trigger] arguments[i]).len() > 0
        && arguments[i][0] != 0x2d by {
        assert(arguments[i] == paths[i - 3]);
    }
    assert(asks_for(arguments, given));
}

/// `serve` and paths serve the comparison of the paths, for 30 seconds after the
/// last browser.
pub proof fn lemma_paths_are_served(program: Seq<u8>, paths: Seq<Seq<u8>>)
    requires
        are_values(paths),
    ensures
        reads_as(
            seq![program, encode_utf8("serve"@)] + paths,
            CliView {
                serve: Some(ServeView { timeout: 30, paths }),
                directory: None,
                paths: Seq::empty(),
            },
        ),
{
    let arguments = seq![program, encode_utf8("serve"@)] + paths;
    let given = serve_values(Seq::empty(), 30, paths);
    assert(arguments.skip(2) =~= paths);
    assert forall|i: int| 2 <= i < arguments.len() implies (#[trigger] arguments[i]).len() > 0
        && arguments[i][0] != 0x2d by {
        assert(arguments[i] == paths[i - 2]);
    }
    assert(asks_for(arguments, given));
}

/// After `serve --`, all that is not empty is compared, whatever it looks like.
pub proof fn lemma_all_is_served_after_dashes(program: Seq<u8>, paths: Seq<Seq<u8>>)
    requires
        paths.len() > 0,
        forall|i: int| 0 <= i < paths.len() ==> (#[trigger] paths[i]).len() > 0,
    ensures
        reads_as(
            seq![program, encode_utf8("serve"@), encode_utf8("--"@)] + paths,
            CliView {
                serve: Some(ServeView { timeout: 30, paths }),
                directory: None,
                paths: Seq::empty(),
            },
        ),
{
    let arguments = seq![program, encode_utf8("serve"@), encode_utf8("--"@)] + paths;
    let given = serve_values(Seq::empty(), 30, paths);
    assert(arguments.skip(3) =~= paths);
    assert forall|i: int| 3 <= i < arguments.len() implies (#[trigger] arguments[i]).len() > 0 by {
        assert(arguments[i] == paths[i - 3]);
    }
    assert(asks_for(arguments, given));
}

/// `-C` also gives the directory after `serve`.
pub proof fn lemma_directory_is_taken_after_serve(
    program: Seq<u8>,
    directory: Seq<u8>,
    paths: Seq<Seq<u8>>,
)
    requires
        directory.len() > 0 && directory[0] != 0x2d,
        are_values(paths),
    ensures
        reads_as(
            seq![program, encode_utf8("serve"@), encode_utf8("-C"@), directory] + paths,
            CliView {
                serve: Some(ServeView { timeout: 30, paths }),
                directory: Some(directory),
                paths: Seq::empty(),
            },
        ),
{
    let arguments = seq![program, encode_utf8("serve"@), encode_utf8("-C"@), directory] + paths;
    let given = serve_values(seq![directory], 30, paths);
    assert(arguments.skip(4) =~= paths);
    assert forall|i: int| 4 <= i < arguments.len() implies (#[trigger] arguments[i]).len() > 0
        && arguments[i][0] != 0x2d by {
        assert(arguments[i] == paths[i - 4]);
    }
    assert(asks_for(arguments, given));
}

/// `--timeout` gives the grace period after `serve`, whatever number it is.
pub proof fn lemma_timeout_is_taken(program: Seq<u8>, timeout: u64, paths: Seq<Seq<u8>>)
    requires
        are_values(paths),
    ensures
        reads_as(
            seq![
                program,
                encode_utf8("serve"@),
                encode_utf8("--timeout"@),
                encode_utf8(decimal(timeout as nat)),
            ] + paths,
            CliView {
                serve: Some(ServeView { timeout, paths }),
                directory: None,
                paths: Seq::empty(),
            },
        ),
{
    let arguments = seq![
        program,
        encode_utf8("serve"@),
        encode_utf8("--timeout"@),
        encode_utf8(decimal(timeout as nat)),
    ] + paths;
    let given = serve_values(Seq::empty(), timeout, paths);
    assert(arguments.skip(4) =~= paths);
    assert forall|i: int| 4 <= i < arguments.len() implies (#[trigger] arguments[i]).len() > 0
        && arguments[i][0] != 0x2d by {
        assert(arguments[i] == paths[i - 4]);
    }
    assert(asks_for(arguments, given));
}

/// Every value that was given is kept: the directory and the paths whatever the
/// subcommand is, and the subcommand's grace period and paths. Only a subcommand
/// other than `serve`, or one without a grace period, makes no command line.
pub proof fn lemma_values_are_kept(given: Given)
    ensures
        given.subcommand is None ==> cli_of(given) is Ok && cli_of(given)->Ok_0.serve is None,
        given.subcommand matches Some(subcommand) ==> {
            &&& subcommand.name != "serve"@ <==> cli_of(given) == Err::<CliView, UsageError>(
                UsageError::UnknownSubcommand,
            )
            &&& subcommand.name == "serve"@ && subcommand.timeout is None <==> cli_of(given)
                == Err::<CliView, UsageError>(UsageError::MissingTimeout)
            &&& cli_of(given) matches Ok(cli) ==> cli.serve is Some && cli.serve->0.paths
                == subcommand.paths && Some(cli.serve->0.timeout) == subcommand.timeout
        },
        cli_of(given) matches Ok(cli) ==> {
            &&& cli.paths == given.paths
            &&& given.directory.len() == 0 <==> cli.directory is None
            &&& cli.directory matches Some(directory) ==> directory == given.directory[0]
        },
{
}

/// What is compared are the paths after `serve`, or else the paths.
pub proof fn lemma_compared(cli: CliView)
    ensures
        cli.serve matches Some(serve) ==> cli.compared() == serve.paths,
        cli.serve is None ==> cli.compared() == cli.paths,
{
}

/// The program takes at least one path, and a directory after `-C` that can be given
/// after a subcommand too; its one subcommand is `serve`, which excuses the paths
/// before it, takes at least one path of its own, and a number after `--timeout`
/// that is 30 where it is not given.
pub proof fn lemma_program_shape()
    ensures
        program_shape().name == "compare-svg"@,
        program_shape().subcommand_negates_reqs,
        program_shape().arguments.len() == 2,
        program_shape().arguments[0].id == "directory"@,
        program_shape().arguments[0].short == Some('C'),
        program_shape().arguments[0].long is None,
        program_shape().arguments[0].kind == ValueKind::Path,
        program_shape().arguments[0].global,
        !program_shape().arguments[0].required,
        program_shape().arguments[0].default is None,
        program_shape().arguments[1] == paths_argument()@,
        program_shape().subcommands == seq![serve_shape()],
        serve_shape().name == "serve"@,
        serve_shape().arguments == seq![timeout_argument()@, paths_argument()@],
        serve_shape().subcommands.len() == 0,
        paths_argument()@.id == "paths"@,
        paths_argument()@.short is None && paths_argument()@.long is None,
        paths_argument()@.kind == ValueKind::Paths,
        paths_argument()@.required && !paths_argument()@.global,
        paths_argument()@.default is None,
        timeout_argument()@.id == "timeout"@,
        timeout_argument()@.short is None,
        timeout_argument()@.long == Some("timeout"@),
        timeout_argument()@.kind == ValueKind::Number,
        !timeout_argument()@.required && !timeout_argument()@.global,
        timeout_argument()@.default == Some("30"@),
        DEFAULT_SHUTDOWN_TIMEOUT_SECONDS == 30,
{
    assert(program_shape().subcommands =~= seq![serve_shape()]);
    assert(serve_shape().arguments =~= seq![timeout_argument()@, paths_argument()@]);
}

/// When a rejection is styled: never where that is ruled out; else always where it is
/// forced; else never off a terminal or where it is declined; else where the terminal
/// shows colours, colours are asked for, or the build is automated.
pub proof fn lemma_styles(here: Surroundings)
    ensures
        here.no_color ==> !here.takes_styles(),
        !here.no_color && here.force_color ==> here.takes_styles(),
        !here.force_color && !here.is_terminal ==> !here.takes_styles(),
        !here.force_color && here.color == Some(false) ==> !here.takes_styles(),
        here.is_terminal && !here.no_color && here.color != Some(false) && (here.supports_color
            || here.is_ci) ==> here.takes_styles(),
        here.is_terminal && !here.no_color && here.color == Some(true) ==> here.takes_styles(),
        !here.force_color && !here.supports_color && !here.is_ci && here.color is None
            ==> !here.takes_styles(),
{
}

/// The values of the program are those that were found under the names of its
/// arguments: its own directory and paths, and the grace period and paths of the
/// subcommand.
pub proof fn lemma_found_values_are_read(found: MatchesView)
    ensures
        ({
            let given = given_in(found);
            &&& found.paths.dom().contains("directory"@) ==> given.directory
                == found.paths["directory"@]
            &&& !found.paths.dom().contains("directory"@) ==> given.directory.len() == 0
            &&& found.paths.dom().contains("paths"@) ==> given.paths == found.paths["paths"@]
            &&& !found.paths.dom().contains("paths"@) ==> given.paths.len() == 0
            &&& found.subcommand is None <==> given.subcommand is None
            &&& found.subcommand matches Some((name, own)) ==> {
                let subcommand = given.subcommand->0;
                &&& subcommand.name == name
                &&& own.numbers.dom().contains("timeout"@) ==> subcommand.timeout == Some(
                    own.numbers["timeout"@],
                )
                &&& !own.numbers.dom().contains("timeout"@) ==> subcommand.timeout is None
                &&& own.paths.dom().contains("paths"@) ==> subcommand.paths == own.paths["paths"@]
                &&& !own.paths.dom().contains("paths"@) ==> subcommand.paths.len() == 0
            }
        }),
{
}

/// The command line is seen as it is: with its subcommand's grace period and paths,
/// its directory, and its paths, each in its place.
pub proof fn lemma_command_line_is_seen(cli: Cli, args: ServeArgs, i: int)
    ensures
        cli.command is None <==> cli@.serve is None,
        cli.command == Some(Commands::Serve(args)) ==> {
            &&& cli@.serve->0.timeout == args.timeout
            &&& cli@.serve->0.paths.len() == args.paths@.len()
            &&& 0 <= i < args.paths@.len() ==> cli@.serve->0.paths[i] == path_bytes(args.paths@[i])
        },
        cli.directory is None <==> cli@.directory is None,
        cli.directory matches Some(directory) ==> cli@.directory == Some(path_bytes(directory)),
        cli@.paths.len() == cli.paths@.len(),
        0 <= i < cli.paths@.len() ==> cli@.paths[i] == path_bytes(cli.paths@[i]),
{
}

/// The values are seen as they are, each in its place.
pub proof fn lemma_values_are_seen(matches: Matches, i: int)
    ensures
        matches@.directory.len() == matches.directory@.len(),
        0 <= i < matches.directory@.len() ==> matches@.directory[i] == path_bytes(
            matches.directory@[i],
        ),
        matches@.paths.len() == matches.paths@.len(),
        0 <= i < matches.paths@.len() ==> matches@.paths[i] == path_bytes(matches.paths@[i]),
        matches.subcommand is None <==> matches@.subcommand is None,
        matches.subcommand matches Some(subcommand) ==> {
            &&& matches@.subcommand->0.name == subcommand.name@
            &&& matches@.subcommand->0.timeout == subcommand.timeout
            &&& matches@.subcommand->0.paths.len() == subcommand.paths@.len()
            &&& 0 <= i < subcommand.paths@.len() ==> matches@.subcommand->0.paths[i] == path_bytes(
                subcommand.paths@[i],
            )
        },
{
}

/// A complaint ends the program with 2, and an answer with 0.
pub proof fn lemma_exit_codes(rejection: RejectionView)
    requires
        rejection.exits_as_it_says(),
    ensures
        rejection.is_error ==> rejection.exit_code == 2,
        !rejection.is_error ==> rejection.exit_code == 0,
{
}

/// With `serve`, the program serves its files for as long as was said; without it, it
/// launches a server for the paths. Either way it is about the files that are compared.
pub proof fn lemma_task_is_about_compared_files(cli: Cli)
    ensures
        match task_of(cli) {
            Task::Serve(args) => {
                &&& cli@.serve == Some(args@)
                &&& all_path_bytes(args.paths@) == cli@.compared()
            },
            Task::Launch(paths) => {
                &&& cli@.serve is None
                &&& all_path_bytes(paths@) == cli@.compared()
            },
        },
{
}

/// The message about a directory that the program cannot run in names the directory.
pub proof fn lemma_directory_failure_names_directory(directory: PathView)
    ensures
        names(
            directory_failure_text(directory),
            "failed to change working directory to '"@,
            directory,
            "'"@,
        ),
{
    lemma_names("failed to change working directory to '"@, directory, "'"@);
}

} // verus!
