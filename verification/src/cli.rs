//! The command line.

use std::path::PathBuf;

use vstd::prelude::*;
use vstd::utf8::{encode_utf8, encode_utf8_decode_utf8, is_ascii_chars, is_ascii_chars_encode_utf8};

use crate::cli_laws::reads_as;
use crate::os_path::{all_path_bytes, path_bytes};
use crate::page::{show_path, shown_path};
use crate::path::{PathView, SystemPath};
use crate::text::{decimal, lemma_decimal_is_injective};

verus! {

/// The grace period of a server for which none is given.
pub const DEFAULT_SHUTDOWN_TIMEOUT_SECONDS: u64 = 30;

/// The default grace period as it would be given on the command line.
pub const DEFAULT_TIMEOUT_TEXT: &'static str = "30";

/// The default as text is the default.
pub proof fn lemma_default_timeout_text()
    ensures
        DEFAULT_TIMEOUT_TEXT@ == decimal(DEFAULT_SHUTDOWN_TIMEOUT_SECONDS as nat),
{
    reveal_strlit("30");
    reveal_with_fuel(decimal, 2);
    assert(decimal(30) =~= seq!['3', '0']);
}

/// `clap::Command`, whose contents [`command_shape`] names.
#[verifier::external_type_specification]
#[verifier::external_body]
pub struct ExCommand(clap::Command);

/// `clap::ArgMatches`, whose contents [`matches_view`] names.
#[verifier::external_type_specification]
#[verifier::external_body]
pub struct ExArgMatches(clap::ArgMatches);

/// What the values of an argument are.
#[derive(Clone, Copy, Debug, Eq, PartialEq, Structural)]
pub enum ValueKind {
    /// One path.
    Path,
    /// One or more paths.
    Paths,
    /// A number without a sign.
    Number,
}

/// An argument of a command. It is positional where it has neither a short nor a
/// long name.
#[derive(Debug)]
pub struct Argument {
    /// The name under which its values are found.
    pub id: &'static str,
    /// The letter after `-`.
    pub short: Option<char>,
    /// The word after `--`.
    pub long: Option<&'static str>,
    /// What its values are.
    pub kind: ValueKind,
    /// Whether it must be given.
    pub required: bool,
    /// Whether it may also be given after a subcommand.
    pub global: bool,
    /// Its value where it is not given.
    pub default: Option<&'static str>,
    /// How its values are called.
    pub value_name: &'static str,
    /// What it is for.
    pub help: &'static str,
}

/// What an [`Argument`] is.
pub struct ArgumentView {
    pub id: Seq<char>,
    pub short: Option<char>,
    pub long: Option<Seq<char>>,
    pub kind: ValueKind,
    pub required: bool,
    pub global: bool,
    pub default: Option<Seq<char>>,
    pub value_name: Seq<char>,
    pub help: Seq<char>,
}

/// The characters of an optional text.
pub open spec fn optional_text(text: Option<&'static str>) -> Option<Seq<char>> {
    match text {
        Some(text) => Some(text@),
        None => None,
    }
}

impl View for Argument {
    type V = ArgumentView;

    open spec fn view(&self) -> ArgumentView {
        ArgumentView {
            id: self.id@,
            short: self.short,
            long: optional_text(self.long),
            kind: self.kind,
            required: self.required,
            global: self.global,
            default: optional_text(self.default),
            value_name: self.value_name@,
            help: self.help@,
        }
    }
}

/// What a command accepts.
pub struct CommandShape {
    pub name: Seq<char>,
    pub about: Seq<char>,
    pub version: Option<Seq<char>>,
    /// Whether the required arguments may be left out before a subcommand.
    pub subcommand_negates_reqs: bool,
    pub arguments: Seq<ArgumentView>,
    pub subcommands: Seq<CommandShape>,
}

/// What a `clap::Command` accepts.
pub uninterp spec fn command_shape(command: clap::Command) -> CommandShape;

/// The values that were found on a command line.
pub struct MatchesView {
    /// The paths that were given for each argument.
    pub paths: Map<Seq<char>, Seq<Seq<u8>>>,
    /// The number that was given for each argument, or its default.
    pub numbers: Map<Seq<char>, u64>,
    /// The subcommand that was given, with its own values.
    pub subcommand: Option<(Seq<char>, Box<MatchesView>)>,
}

impl MatchesView {
    /// The paths that were given for the argument `id`.
    pub open spec fn paths_of(self, id: Seq<char>) -> Seq<Seq<u8>> {
        if self.paths.dom().contains(id) {
            self.paths[id]
        } else {
            Seq::empty()
        }
    }

    /// The number for the argument `id`, if there is one.
    pub open spec fn number_of(self, id: Seq<char>) -> Option<u64> {
        if self.numbers.dom().contains(id) {
            Some(self.numbers[id])
        } else {
            None
        }
    }
}

/// What a `clap::ArgMatches` holds.
pub uninterp spec fn matches_view(matches: clap::ArgMatches) -> MatchesView;

/// What `clap::Command::try_get_matches_from` finds in some arguments, the first
/// of which is the name of the program, or what is said where it rejects them.
pub uninterp spec fn parsed(shape: CommandShape, arguments: Seq<Seq<u8>>) -> Result<
    MatchesView,
    RejectionView,
>;

/// `clap::Command::new`, `about`, `version` and `subcommand_negates_reqs`: returns
/// a command without arguments and subcommands.
#[verifier::external_body]
fn new_command(
    name: &'static str,
    about: &'static str,
    version: Option<&'static str>,
    subcommand_negates_reqs: bool,
) -> (command: clap::Command)
    ensures
        command_shape(command) == (CommandShape {
            name: name@,
            about: about@,
            version: optional_text(version),
            subcommand_negates_reqs,
            arguments: Seq::empty(),
            subcommands: Seq::empty(),
        }),
{
    clap::Command::new(name)
        .about(about)
        .version(version)
        .subcommand_negates_reqs(subcommand_negates_reqs)
}

/// A command with one more argument.
pub open spec fn with_argument(shape: CommandShape, argument: ArgumentView) -> CommandShape {
    CommandShape { arguments: shape.arguments.push(argument), ..shape }
}

/// `clap::Command::arg` on a `clap::Arg` that takes one path: returns the command
/// with one more argument. `clap::Arg::short` panics on `-` in debug builds.
#[verifier::external_body]
fn add_path(command: clap::Command, argument: &Argument) -> (result: clap::Command)
    requires
        argument.kind == ValueKind::Path,
        argument.short != Some('-'),
    ensures
        command_shape(result) == with_argument(command_shape(command), argument@),
{
    let arg = clap::Arg::new(argument.id).short(argument.short).long(argument.long);
    let arg = arg.required(argument.required).global(argument.global);
    let arg = arg.default_value(argument.default).value_name(argument.value_name);
    let arg = arg.help(argument.help);
    let parser = clap::builder::PathBufValueParser::new();
    command.arg(arg.value_parser(parser).action(clap::ArgAction::Set))
}

/// `clap::Command::arg` on a `clap::Arg` that takes one or more paths: returns the command
/// with one more argument. `clap::Arg::short` panics on `-` in debug builds.
#[verifier::external_body]
fn add_paths(command: clap::Command, argument: &Argument) -> (result: clap::Command)
    requires
        argument.kind == ValueKind::Paths,
        argument.short != Some('-'),
    ensures
        command_shape(result) == with_argument(command_shape(command), argument@),
{
    let arg = clap::Arg::new(argument.id).short(argument.short).long(argument.long);
    let arg = arg.required(argument.required).global(argument.global);
    let arg = arg.default_value(argument.default).value_name(argument.value_name);
    let arg = arg.help(argument.help);
    let parser = clap::builder::PathBufValueParser::new();
    command.arg(arg.value_parser(parser).action(clap::ArgAction::Append).num_args(1..))
}

/// `clap::Command::arg` on a `clap::Arg` that takes a `u64`: returns the command
/// with one more argument. `clap::Arg::short` panics on `-` in debug builds.
#[verifier::external_body]
fn add_number(command: clap::Command, argument: &Argument) -> (result: clap::Command)
    requires
        argument.kind == ValueKind::Number,
        argument.short != Some('-'),
    ensures
        command_shape(result) == with_argument(command_shape(command), argument@),
{
    let arg = clap::Arg::new(argument.id).short(argument.short).long(argument.long);
    let arg = arg.required(argument.required).global(argument.global);
    let arg = arg.default_value(argument.default).value_name(argument.value_name);
    let arg = arg.help(argument.help);
    let parser = clap::builder::RangedU64ValueParser::<u64>::new();
    command.arg(arg.value_parser(parser).action(clap::ArgAction::Set))
}

/// Adds an argument to a command.
fn add_argument(command: clap::Command, argument: &Argument) -> (result: clap::Command)
    requires
        argument.short != Some('-'),
    ensures
        command_shape(result) == with_argument(command_shape(command), argument@),
{
    match argument.kind {
        ValueKind::Path => add_path(command, argument),
        ValueKind::Paths => add_paths(command, argument),
        ValueKind::Number => add_number(command, argument),
    }
}

/// `clap::Command::subcommand`: returns the command with one more subcommand.
#[verifier::external_body]
fn add_subcommand(command: clap::Command, subcommand: clap::Command) -> (result: clap::Command)
    ensures
        command_shape(result) == (CommandShape {
            subcommands: command_shape(command).subcommands.push(command_shape(subcommand)),
            ..command_shape(command)
        }),
{
    command.subcommand(subcommand)
}

/// The directory to run in.
pub open spec fn directory_argument() -> Argument {
    Argument {
        id: "directory",
        short: Some('C'),
        long: None,
        kind: ValueKind::Path,
        required: false,
        global: true,
        default: None,
        value_name: "PATH",
        help: "Run as if compare-svg was started in this directory",
    }
}

/// The files to compare.
pub open spec fn paths_argument() -> Argument {
    Argument {
        id: "paths",
        short: None,
        long: None,
        kind: ValueKind::Paths,
        required: true,
        global: false,
        default: None,
        value_name: "PATH",
        help: "Paths to SVGs in the same Git working tree",
    }
}

/// The grace period.
pub open spec fn timeout_argument() -> Argument {
    Argument {
        id: "timeout",
        short: None,
        long: Some("timeout"),
        kind: ValueKind::Number,
        required: false,
        global: false,
        default: Some(DEFAULT_TIMEOUT_TEXT),
        value_name: "TIMEOUT",
        help: "Seconds to wait without browser activity before shutting down",
    }
}

/// `serve`: the server in the foreground.
pub open spec fn serve_shape() -> CommandShape {
    CommandShape {
        name: "serve"@,
        about: "Run the comparison web server in the foreground"@,
        version: None,
        subcommand_negates_reqs: false,
        arguments: seq![timeout_argument()@, paths_argument()@],
        subcommands: Seq::empty(),
    }
}

/// The program: the paths to compare, or `serve`, and in either case the directory
/// to run in.
pub open spec fn program_shape() -> CommandShape {
    CommandShape {
        name: "compare-svg"@,
        about: "Compare SVGs in the working tree with their versions at Git HEAD"@,
        version: Some("0.1.0"@),
        subcommand_negates_reqs: true,
        arguments: seq![directory_argument()@, paths_argument()@],
        subcommands: seq![serve_shape()],
    }
}

/// The paths to compare, as an argument.
fn paths_option() -> (argument: Argument)
    ensures
        argument == paths_argument(),
{
    Argument {
        id: "paths",
        short: None,
        long: None,
        kind: ValueKind::Paths,
        required: true,
        global: false,
        default: None,
        value_name: "PATH",
        help: "Paths to SVGs in the same Git working tree",
    }
}

/// The command `serve`.
fn serve_command() -> (command: clap::Command)
    ensures
        command_shape(command) == serve_shape(),
{
    let timeout = Argument {
        id: "timeout",
        short: None,
        long: Some("timeout"),
        kind: ValueKind::Number,
        required: false,
        global: false,
        default: Some(DEFAULT_TIMEOUT_TEXT),
        value_name: "TIMEOUT",
        help: "Seconds to wait without browser activity before shutting down",
    };
    let command = new_command(
        "serve",
        "Run the comparison web server in the foreground",
        None,
        false,
    );
    let command = add_argument(command, &timeout);
    let command = add_argument(command, &paths_option());
    assert(command_shape(command).arguments =~= serve_shape().arguments);
    command
}

/// The command of the program.
fn program_command() -> (command: clap::Command)
    ensures
        command_shape(command) == program_shape(),
{
    let directory = Argument {
        id: "directory",
        short: Some('C'),
        long: None,
        kind: ValueKind::Path,
        required: false,
        global: true,
        default: None,
        value_name: "PATH",
        help: "Run as if compare-svg was started in this directory",
    };
    let command = new_command(
        "compare-svg",
        "Compare SVGs in the working tree with their versions at Git HEAD",
        Some("0.1.0"),
        true,
    );
    let command = add_argument(command, &directory);
    let command = add_argument(command, &paths_option());
    let command = add_subcommand(command, serve_command());
    assert(command_shape(command).arguments =~= program_shape().arguments);
    assert(command_shape(command).subcommands =~= program_shape().subcommands);
    command
}

/// Whether an argument that must be given has values, unless it is excused, and
/// one with a default has a value.
pub open spec fn is_satisfied(argument: ArgumentView, excused: bool, found: MatchesView) -> bool {
    &&& argument.required && !excused && argument.kind != ValueKind::Number ==> found.paths_of(
        argument.id,
    ).len() >= 1
    &&& argument.default is Some && argument.kind == ValueKind::Number ==> found.number_of(
        argument.id,
    ) is Some
}

/// Whether the arguments of a command are satisfied, apart from its subcommands.
pub open spec fn are_satisfied(shape: CommandShape, found: MatchesView) -> bool {
    forall|i: int|
        0 <= i < shape.arguments.len() ==> is_satisfied(
            #[trigger] shape.arguments[i],
            shape.subcommand_negates_reqs && found.subcommand is Some,
            found,
        )
}

/// Whether the subcommand that was given is one of the command, and its arguments
/// are satisfied.
pub open spec fn is_subcommand_satisfied(shape: CommandShape, found: MatchesView) -> bool {
    found.subcommand matches Some((name, given)) ==> exists|k: int|
        0 <= k < shape.subcommands.len() && (#[trigger] shape.subcommands[k]).name == name
            && are_satisfied(shape.subcommands[k], *given)
}

/// Whether an argument is taken for a value: it is not empty, and it does not look
/// like an option.
pub open spec fn is_plain(argument: Seq<u8>) -> bool {
    argument.len() > 0 && argument[0] != 45
}

/// Whether there are arguments from `start` on, all of them values.
pub open spec fn are_plain_from(arguments: Seq<Seq<u8>>, start: int) -> bool {
    &&& arguments.len() > start
    &&& forall|i: int| start <= i < arguments.len() ==> is_plain(#[trigger] arguments[i])
}

/// Whether there are arguments from `start` on, all of them values, and the first
/// of them is not taken for a subcommand.
pub open spec fn are_paths_from(arguments: Seq<Seq<u8>>, start: int) -> bool {
    &&& are_plain_from(arguments, start)
    &&& arguments[start] != encode_utf8("serve"@)
    &&& arguments[start] != encode_utf8("help"@)
}

/// The values where there is no subcommand.
pub open spec fn launch_values(directory: Seq<Seq<u8>>, paths: Seq<Seq<u8>>) -> Given {
    Given { directory, paths, subcommand: None }
}

/// The values where there is the subcommand `serve`.
pub open spec fn serve_values(
    directory: Seq<Seq<u8>>,
    timeout: u64,
    paths: Seq<Seq<u8>>,
) -> Given {
    Given {
        directory,
        paths: Seq::empty(),
        subcommand: Some(
            GivenSubcommand { name: "serve"@, timeout: Some(timeout), paths },
        ),
    }
}

/// Whether some arguments, after the name of the program and `serve`, are of one of
/// these forms, and give these values: paths; `--` and whatever is not empty; `-C`,
/// a directory and paths; or `--timeout`, a number and paths. The grace period is
/// the default where none is given.
pub open spec fn asks_to_serve(arguments: Seq<Seq<u8>>, given: Given) -> bool {
    &&& arguments.len() > 1
    &&& arguments[1] == encode_utf8("serve"@)
    &&& {
        ||| are_plain_from(arguments, 2) && given == serve_values(
            Seq::empty(),
            DEFAULT_SHUTDOWN_TIMEOUT_SECONDS,
            arguments.skip(2),
        )
        ||| {
            &&& arguments.len() > 3
            &&& arguments[2] == encode_utf8("--"@)
            &&& forall|i: int| 3 <= i < arguments.len() ==> (#[trigger] arguments[i]).len() > 0
            &&& given == serve_values(
                Seq::empty(),
                DEFAULT_SHUTDOWN_TIMEOUT_SECONDS,
                arguments.skip(3),
            )
        }
        ||| {
            &&& are_plain_from(arguments, 4)
            &&& arguments[2] == encode_utf8("-C"@)
            &&& is_plain(arguments[3])
            &&& given == serve_values(
                seq![arguments[3]],
                DEFAULT_SHUTDOWN_TIMEOUT_SECONDS,
                arguments.skip(4),
            )
        }
        ||| {
            &&& are_plain_from(arguments, 4)
            &&& arguments[2] == encode_utf8("--timeout"@)
            &&& given.subcommand is Some
            &&& given.subcommand->0.timeout is Some
            &&& arguments[3] == encode_utf8(decimal(given.subcommand->0.timeout->0 as nat))
            &&& given == serve_values(
                Seq::empty(),
                given.subcommand->0.timeout->0,
                arguments.skip(4),
            )
        }
    }
}

/// Whether some arguments, after the name of the program, are paths, perhaps after
/// `-C` and a directory, and give these values.
pub open spec fn asks_to_launch(arguments: Seq<Seq<u8>>, given: Given) -> bool {
    ||| are_paths_from(arguments, 1) && given == launch_values(Seq::empty(), arguments.skip(1))
    ||| {
        &&& are_paths_from(arguments, 3)
        &&& arguments[1] == encode_utf8("-C"@)
        &&& is_plain(arguments[2])
        &&& given == launch_values(seq![arguments[2]], arguments.skip(3))
    }
}

/// Whether some arguments are of a usual form, and give these values.
pub open spec fn asks_for(arguments: Seq<Seq<u8>>, given: Given) -> bool {
    asks_to_serve(arguments, given) || asks_to_launch(arguments, given)
}

/// No option is taken for a value, and no two of them are the same.
proof fn lemma_options()
    ensures
        !is_plain(encode_utf8("--"@)),
        !is_plain(encode_utf8("-C"@)),
        !is_plain(encode_utf8("--timeout"@)),
        is_plain(encode_utf8("serve"@)),
        encode_utf8("--"@) != encode_utf8("-C"@),
        encode_utf8("--"@) != encode_utf8("--timeout"@),
        encode_utf8("-C"@) != encode_utf8("--timeout"@),
{
    reveal_strlit("--");
    reveal_strlit("-C");
    reveal_strlit("--timeout");
    reveal_strlit("serve");
    assert(is_ascii_chars("--"@));
    assert(is_ascii_chars("-C"@));
    assert(is_ascii_chars("--timeout"@));
    assert(is_ascii_chars("serve"@));
    is_ascii_chars_encode_utf8("--"@);
    is_ascii_chars_encode_utf8("-C"@);
    is_ascii_chars_encode_utf8("--timeout"@);
    is_ascii_chars_encode_utf8("serve"@);
    assert(encode_utf8("--"@)[1] == 45);
    assert(encode_utf8("-C"@)[1] == 67);
}

/// Arguments of a usual form ask for one thing only.
pub proof fn lemma_usual_forms_are_distinct(arguments: Seq<Seq<u8>>, a: Given, b: Given)
    requires
        asks_for(arguments, a),
        asks_for(arguments, b),
    ensures
        a == b,
{
    lemma_options();
    if asks_to_serve(arguments, a) && asks_to_serve(arguments, b) && arguments[2] == encode_utf8(
        "--timeout"@,
    ) {
        let m = decimal(a.subcommand->0.timeout->0 as nat);
        let n = decimal(b.subcommand->0.timeout->0 as nat);
        encode_utf8_decode_utf8(m);
        encode_utf8_decode_utf8(n);
        lemma_decimal_is_injective(
            a.subcommand->0.timeout->0 as nat,
            b.subcommand->0.timeout->0 as nat,
        );
    }
}

/// What the program says where it does not take its arguments: a complaint, or
/// the help or version that was asked for.
#[derive(Debug)]
pub struct Rejection {
    /// What is said.
    pub text: String,
    /// The same with the escape codes of a terminal.
    pub styled: String,
    /// Whether it is a complaint, to be said on standard error.
    pub is_error: bool,
    /// The code to exit with.
    pub exit_code: i32,
}

/// What a [`Rejection`] is.
pub struct RejectionView {
    pub text: Seq<char>,
    pub styled: Seq<char>,
    pub is_error: bool,
    pub exit_code: i32,
}

impl View for Rejection {
    type V = RejectionView;

    open spec fn view(&self) -> RejectionView {
        RejectionView {
            text: self.text@,
            styled: self.styled@,
            is_error: self.is_error,
            exit_code: self.exit_code,
        }
    }
}

impl RejectionView {
    /// Whether the code to exit with tells a complaint from an answer.
    pub open spec fn exits_as_it_says(self) -> bool {
        self.exit_code == (if self.is_error {
            2i32
        } else {
            0i32
        })
    }
}

/// Where something is to be said.
#[derive(Clone, Copy, Debug)]
pub struct Surroundings {
    /// Whether it is a terminal.
    pub is_terminal: bool,
    /// Whether the terminal is known to show colours.
    pub supports_color: bool,
    /// Whether `NO_COLOR` is set, to something.
    pub no_color: bool,
    /// Whether `CLICOLOR_FORCE` is set, to something.
    pub force_color: bool,
    /// Whether `CLICOLOR`, where it is set, asks for colours.
    pub color: Option<bool>,
    /// Whether it is said in an automated build.
    pub is_ci: bool,
}

impl Surroundings {
    /// Whether what is said is to have the escape codes of a terminal: never where
    /// that is ruled out, always where it is forced, and otherwise on a terminal
    /// that shows colours or is said to.
    pub open spec fn takes_styles(self) -> bool {
        if self.no_color {
            false
        } else if self.force_color {
            true
        } else {
            &&& self.color != Some(false)
            &&& self.is_terminal
            &&& self.supports_color || self.color == Some(true) || self.is_ci
        }
    }
}

impl Rejection {
    /// What is said in some surroundings.
    pub fn said_in(&self, surroundings: &Surroundings) -> (text: &str)
        ensures
            text@ == (if surroundings.takes_styles() {
                self@.styled
            } else {
                self@.text
            }),
    {
        let (enabled, disabled) = match surroundings.color {
            Some(color) => (color, !color),
            None => (false, false),
        };
        let on_terminal = surroundings.is_terminal && (surroundings.supports_color || enabled
            || surroundings.is_ci);
        if !surroundings.no_color && (surroundings.force_color || (!disabled && on_terminal)) {
            self.styled.as_str()
        } else {
            self.text.as_str()
        }
    }
}

/// `clap::Command::try_get_matches_from`: finds the values in some arguments.
/// Those that must be given are there, unless they precede a subcommand that
/// excuses them; those with a default have a value; and a subcommand is one of
/// the command. Arguments of the usual forms are taken and give their values:
/// what does not begin with `-`, and all that follows `--`, is a value of the
/// option before it or else of the positional argument, and only the first of the
/// values before `--` can name a subcommand. A rejection is read from the
/// `clap::Error` by `render`, `use_stderr` and `exit_code`: it depends on the
/// command and the arguments alone, and its code is 2 where it goes to standard
/// error and 0 otherwise. What it reads has no more than a name. The command is
/// that of the program, which is well formed for it.
#[verifier::external_body]
fn find_matches(command: clap::Command, arguments: Vec<PathBuf>) -> (result: Result<
    clap::ArgMatches,
    Rejection,
>)
    requires
        command_shape(command) == program_shape(),
    ensures
        match result {
            Ok(found) => {
                &&& parsed(command_shape(command), all_path_bytes(arguments@)) == Ok::<
                    MatchesView,
                    RejectionView,
                >(matches_view(found))
                &&& are_satisfied(command_shape(command), matches_view(found))
                &&& is_subcommand_satisfied(command_shape(command), matches_view(found))
                &&& forall|given: Given| #[trigger]
                    asks_for(all_path_bytes(arguments@), given) ==> given_in(matches_view(found))
                        == given
            },
            Err(rejection) => {
                &&& parsed(command_shape(command), all_path_bytes(arguments@)) == Err::<
                    MatchesView,
                    RejectionView,
                >(rejection@)
                &&& rejection@.exits_as_it_says()
                &&& forall|given: Given| !#[trigger] asks_for(all_path_bytes(arguments@), given)
            },
        },
{
    command.try_get_matches_from(arguments).map_err(|error| Rejection {
        text: error.render().to_string(),
        styled: error.render().ansi().to_string(),
        is_error: error.use_stderr(),
        exit_code: error.exit_code(),
    })
}

/// `clap::ArgMatches::try_get_many`: returns the paths that were given for an
/// argument; none where there is no such argument.
#[verifier::external_body]
fn given_paths(found: &clap::ArgMatches, id: &str) -> (paths: Vec<PathBuf>)
    ensures
        all_path_bytes(paths@) == matches_view(*found).paths_of(id@),
{
    let values = found.try_get_many::<PathBuf>(id).ok().flatten();
    values.map(|values| values.cloned().collect()).unwrap_or_default()
}

/// `clap::ArgMatches::try_get_one`: returns the number for an argument; none where
/// there is no such argument.
#[verifier::external_body]
fn given_number(found: &clap::ArgMatches, id: &str) -> (number: Option<u64>)
    ensures
        number == matches_view(*found).number_of(id@),
{
    found.try_get_one::<u64>(id).ok().flatten().copied()
}

/// `clap::ArgMatches::subcommand`: returns the subcommand that was given, with its
/// own values.
#[verifier::external_body]
fn given_subcommand(found: &clap::ArgMatches) -> (subcommand: Option<(&str, &clap::ArgMatches)>)
    ensures
        match subcommand {
            Some((name, given)) => matches_view(*found).subcommand == Some(
                (name@, Box::new(matches_view(*given))),
            ),
            None => matches_view(*found).subcommand is None,
        },
{
    found.subcommand()
}

/// The values that were found on the command line of the program.
#[derive(Debug)]
pub struct Matches {
    /// The directories after `-C`.
    pub directory: Vec<PathBuf>,
    /// The paths.
    pub paths: Vec<PathBuf>,
    /// The subcommand.
    pub subcommand: Option<SubcommandMatches>,
}

/// The values that were found after a subcommand.
#[derive(Debug)]
pub struct SubcommandMatches {
    /// The name of the subcommand.
    pub name: String,
    /// The number after `--timeout`, or its default.
    pub timeout: Option<u64>,
    /// The paths.
    pub paths: Vec<PathBuf>,
}

/// What a [`SubcommandMatches`] is.
pub struct GivenSubcommand {
    pub name: Seq<char>,
    pub timeout: Option<u64>,
    pub paths: Seq<Seq<u8>>,
}

/// What a [`Matches`] is.
pub struct Given {
    pub directory: Seq<Seq<u8>>,
    pub paths: Seq<Seq<u8>>,
    pub subcommand: Option<GivenSubcommand>,
}

impl View for SubcommandMatches {
    type V = GivenSubcommand;

    open spec fn view(&self) -> GivenSubcommand {
        GivenSubcommand {
            name: self.name@,
            timeout: self.timeout,
            paths: all_path_bytes(self.paths@),
        }
    }
}

impl View for Matches {
    type V = Given;

    open spec fn view(&self) -> Given {
        Given {
            directory: all_path_bytes(self.directory@),
            paths: all_path_bytes(self.paths@),
            subcommand: match self.subcommand {
                Some(subcommand) => Some(subcommand@),
                None => None,
            },
        }
    }
}

/// The values of the program's own arguments.
pub open spec fn given_in(found: MatchesView) -> Given {
    Given {
        directory: found.paths_of(directory_argument().id@),
        paths: found.paths_of(paths_argument().id@),
        subcommand: match found.subcommand {
            Some((name, given)) => Some(
                GivenSubcommand {
                    name,
                    timeout: given.number_of(timeout_argument().id@),
                    paths: given.paths_of(paths_argument().id@),
                },
            ),
            None => None,
        },
    }
}

/// Reads the values of the program's own arguments.
fn read_matches(found: &clap::ArgMatches) -> (matches: Matches)
    ensures
        matches@ == given_in(matches_view(*found)),
{
    let directory = given_paths(found, "directory");
    let paths = given_paths(found, "paths");
    match given_subcommand(found) {
        Some((name, given)) => {
            let subcommand = SubcommandMatches {
                name: name.to_owned(),
                timeout: given_number(given, "timeout"),
                paths: given_paths(given, "paths"),
            };
            Matches { directory, paths, subcommand: Some(subcommand) }
        },
        None => Matches { directory, paths, subcommand: None },
    }
}

/// The command line of the program.
#[derive(Debug)]
pub struct Cli {
    /// The subcommand.
    pub command: Option<Commands>,
    /// The directory to run in.
    pub directory: Option<PathBuf>,
    /// The files to compare where there is no subcommand.
    pub paths: Vec<PathBuf>,
}

/// The subcommands of the program.
#[derive(Debug)]
pub enum Commands {
    /// Run the comparison web server in the foreground.
    Serve(ServeArgs),
}

/// The arguments of `serve`.
#[derive(Debug)]
pub struct ServeArgs {
    /// Seconds to wait without browser activity before shutting down.
    pub timeout: u64,
    /// The files to compare.
    pub paths: Vec<PathBuf>,
}

/// What a [`ServeArgs`] is.
pub struct ServeView {
    pub timeout: u64,
    pub paths: Seq<Seq<u8>>,
}

/// What a [`Cli`] is.
pub struct CliView {
    pub serve: Option<ServeView>,
    pub directory: Option<Seq<u8>>,
    pub paths: Seq<Seq<u8>>,
}

impl CliView {
    /// The files that are compared.
    pub open spec fn compared(self) -> Seq<Seq<u8>> {
        match self.serve {
            Some(serve) => serve.paths,
            None => self.paths,
        }
    }
}

impl View for ServeArgs {
    type V = ServeView;

    open spec fn view(&self) -> ServeView {
        ServeView { timeout: self.timeout, paths: all_path_bytes(self.paths@) }
    }
}

impl View for Cli {
    type V = CliView;

    open spec fn view(&self) -> CliView {
        CliView {
            serve: match self.command {
                Some(Commands::Serve(args)) => Some(args@),
                None => None,
            },
            directory: match self.directory {
                Some(directory) => Some(path_bytes(directory)),
                None => None,
            },
            paths: all_path_bytes(self.paths@),
        }
    }
}

/// What the program is to do.
#[derive(Debug)]
pub enum Task {
    /// Serve the comparison in the foreground.
    Serve(ServeArgs),
    /// Start a server for these files in the background and open its page.
    Launch(Vec<PathBuf>),
}

/// What is said about a directory that the program cannot run in.
pub open spec fn directory_failure_text(directory: PathView) -> Seq<char> {
    "failed to change working directory to '"@ + shown_path(directory) + "'"@
}

/// What is said about a directory that the program cannot run in.
pub fn directory_failure(directory: &SystemPath) -> (message: String)
    ensures
        message@ == directory_failure_text(directory@),
{
    let mut message = "failed to change working directory to '".to_owned();
    message.append(show_path(directory).as_str());
    message.append("'");
    message
}

/// Why values make no command line of the program.
#[derive(Clone, Copy, Debug, Eq, PartialEq, Structural)]
pub enum UsageError {
    /// There is no subcommand of that name.
    UnknownSubcommand,
    /// `serve` has no grace period.
    MissingTimeout,
}

/// Why there is no command line to act on.
#[derive(Debug)]
pub enum CliError {
    /// The arguments were not taken.
    Rejected(Rejection),
    /// Their values make no command line of the program.
    Usage(UsageError),
}

/// The command line that some values make.
pub open spec fn cli_of(given: Given) -> Result<CliView, UsageError> {
    let directory = if given.directory.len() > 0 {
        Some(given.directory[0])
    } else {
        None
    };
    match given.subcommand {
        None => Ok(CliView { serve: None, directory, paths: given.paths }),
        Some(subcommand) => if subcommand.name != "serve"@ {
            Err(UsageError::UnknownSubcommand)
        } else {
            match subcommand.timeout {
                Some(timeout) => Ok(
                    CliView {
                        serve: Some(ServeView { timeout, paths: subcommand.paths }),
                        directory,
                        paths: given.paths,
                    },
                ),
                None => Err(UsageError::MissingTimeout),
            }
        },
    }
}

/// What the program is to do on a command line.
pub open spec fn task_of(cli: Cli) -> Task {
    match cli.command {
        Some(Commands::Serve(args)) => Task::Serve(args),
        None => Task::Launch(cli.paths),
    }
}

impl Cli {
    /// The command line that some values make.
    pub fn from_matches(matches: Matches) -> (result: Result<Cli, UsageError>)
        ensures
            match result {
                Ok(cli) => cli_of(matches@) == Ok::<CliView, UsageError>(cli@),
                Err(error) => cli_of(matches@) == Err::<CliView, UsageError>(error),
            },
    {
        let Matches { directory, paths, subcommand } = matches;
        let mut directories = directory;
        let directory = if directories.len() > 0 {
            Some(directories.remove(0))
        } else {
            None
        };
        let command = match subcommand {
            None => None,
            Some(subcommand) => {
                if !(subcommand.name == "serve".to_owned()) {
                    return Err(UsageError::UnknownSubcommand);
                }
                match subcommand.timeout {
                    Some(timeout) => Some(
                        Commands::Serve(ServeArgs { timeout, paths: subcommand.paths }),
                    ),
                    None => {
                        return Err(UsageError::MissingTimeout);
                    },
                }
            },
        };
        Ok(Cli { command, directory, paths })
    }

    /// What the program is to do.
    pub fn task(self) -> (task: Task)
        ensures
            task == task_of(self),
    {
        match self.command {
            Some(Commands::Serve(args)) => Task::Serve(args),
            None => Task::Launch(self.paths),
        }
    }

    /// The command line in some arguments, the first of which is the name of the
    /// program. There is always something to compare: `serve` as well as the
    /// program without it takes at least one path. Arguments of the usual forms
    /// are taken for what they ask for. Arguments that are not taken are answered
    /// with the rejection for them, and the code to exit with says whether it is a
    /// complaint.
    pub fn try_parse_from(arguments: Vec<PathBuf>) -> (result: Result<Cli, CliError>)
        ensures
            match result {
                Ok(cli) => {
                    &&& parsed(program_shape(), all_path_bytes(arguments@)) is Ok
                    &&& cli_of(
                        given_in(parsed(program_shape(), all_path_bytes(arguments@))->Ok_0),
                    ) == Ok::<CliView, UsageError>(cli@)
                    &&& cli@.compared().len() >= 1
                },
                Err(CliError::Rejected(rejection)) => {
                    &&& parsed(program_shape(), all_path_bytes(arguments@)) == Err::<
                        MatchesView,
                        RejectionView,
                    >(rejection@)
                    &&& rejection@.exits_as_it_says()
                },
                Err(CliError::Usage(_)) => false,
            },
            forall|given: Given| #[trigger]
                asks_for(all_path_bytes(arguments@), given) ==> (result matches Ok(cli) && cli_of(
                    given,
                ) == Ok::<CliView, UsageError>(cli@)),            forall|cli: CliView| #[trigger]
                reads_as(all_path_bytes(arguments@), cli) ==> (result matches Ok(taken) && taken@
                    == cli),
    {
        let found = match find_matches(program_command(), arguments) {
            Ok(found) => found,
            Err(rejection) => {
                return Err(CliError::Rejected(rejection));
            },
        };
        proof {
            let view = matches_view(found);
            let program = program_shape();
            assert(is_satisfied(
                program.arguments[1],
                program.subcommand_negates_reqs && view.subcommand is Some,
                view,
            ));
            if let Some((name, given)) = view.subcommand {
                let k = choose|k: int|
                    0 <= k < program.subcommands.len() && (
                    #[trigger] program.subcommands[k]).name == name && are_satisfied(
                        program.subcommands[k],
                        *given,
                    );
                assert(program.subcommands[k] == serve_shape());
                assert(is_satisfied(serve_shape().arguments[0], false, *given));
                assert(is_satisfied(serve_shape().arguments[1], false, *given));
            }
        }
        match Cli::from_matches(read_matches(&found)) {
            Ok(cli) => Ok(cli),
            Err(error) => Err(CliError::Usage(error)),
        }
    }
}

} // verus!
