use std::path::PathBuf;

use compare_svg::cli::{
    directory_failure, Cli, CliError, Commands, Matches, SubcommandMatches, Surroundings, Task,
    UsageError, DEFAULT_SHUTDOWN_TIMEOUT_SECONDS,
};
use compare_svg::launch::server_arguments;
use compare_svg::path::{Syntax, SystemPath};

fn arguments(texts: &[&str]) -> Vec<PathBuf> {
    texts.iter().map(PathBuf::from).collect()
}

fn rejection(texts: &[&str]) -> compare_svg::cli::Rejection {
    match Cli::try_parse_from(arguments(texts)) {
        Err(CliError::Rejected(rejection)) => rejection,
        other => panic!("expected a rejection, got {other:?}"),
    }
}

#[test]
fn parses_multiple_paths() {
    let cli = Cli::try_parse_from(arguments(&[
        "compare-svg",
        "snapshot.svg",
        "icons/other.svg",
    ]))
    .expect("arguments should parse");

    assert!(cli.command.is_none());
    assert!(cli.directory.is_none());
    assert_eq!(
        cli.paths,
        [
            PathBuf::from("snapshot.svg"),
            PathBuf::from("icons/other.svg")
        ]
    );
}

#[test]
fn parses_working_directory() {
    let cli = Cli::try_parse_from(arguments(&[
        "compare-svg",
        "-C",
        "/tmp/repository",
        "snapshot.svg",
    ]))
    .expect("working directory should parse");

    assert_eq!(cli.directory, Some(PathBuf::from("/tmp/repository")));
    assert_eq!(cli.paths, [PathBuf::from("snapshot.svg")]);
}

#[test]
fn parses_working_directory_after_serve_subcommand() {
    let cli = Cli::try_parse_from(arguments(&[
        "compare-svg",
        "serve",
        "-C",
        "/tmp/repository",
        "snapshot.svg",
    ]))
    .expect("global working directory should parse after the subcommand");

    assert_eq!(cli.directory, Some(PathBuf::from("/tmp/repository")));
    let Some(Commands::Serve(args)) = cli.command else {
        panic!("expected the serve command");
    };
    assert_eq!(args.paths, [PathBuf::from("snapshot.svg")]);
}

#[test]
fn parses_serve_timeout_and_paths() {
    let cli = Cli::try_parse_from(arguments(&[
        "compare-svg",
        "serve",
        "--timeout",
        "120",
        "snapshot.svg",
    ]))
    .expect("serve arguments should parse");

    let Some(Commands::Serve(args)) = cli.command else {
        panic!("expected the serve command");
    };
    assert_eq!(args.timeout, 120);
    assert_eq!(args.paths, [PathBuf::from("snapshot.svg")]);
}

#[test]
fn requires_at_least_one_path() {
    assert!(Cli::try_parse_from(arguments(&["compare-svg"])).is_err());
    assert!(Cli::try_parse_from(arguments(&["compare-svg", "serve"])).is_err());
}

#[test]
fn serve_has_a_default_timeout() {
    let cli = Cli::try_parse_from(arguments(&["compare-svg", "serve", "a.svg", "b.svg"]))
        .expect("serve arguments should parse");

    let Some(Commands::Serve(args)) = cli.command else {
        panic!("expected the serve command");
    };
    assert_eq!(args.timeout, DEFAULT_SHUTDOWN_TIMEOUT_SECONDS);
    assert_eq!(args.timeout, 30);
    assert_eq!(args.paths, arguments(&["a.svg", "b.svg"]));
    assert!(cli.paths.is_empty());
    assert!(cli.directory.is_none());
}

#[test]
fn working_directory_parses_before_serve() {
    let cli = Cli::try_parse_from(arguments(&["compare-svg", "-C", "/tmp", "serve", "a.svg"]))
        .expect("working directory should parse before the subcommand");

    assert_eq!(cli.directory, Some(PathBuf::from("/tmp")));
    assert!(cli.command.is_some());
}

#[test]
fn rejections_tell_complaints_from_answers() {
    let complaint = rejection(&["compare-svg"]);
    assert!(complaint.is_error);
    assert_eq!(complaint.exit_code, 2);
    assert!(complaint.text.contains("<PATH>..."));
    assert!(complaint.styled.contains('\u{1b}'));

    let help = rejection(&["compare-svg", "--help"]);
    assert!(!help.is_error);
    assert_eq!(help.exit_code, 0);
    assert!(help
        .text
        .contains("Compare SVGs in the working tree with their versions at Git HEAD"));
    assert!(help.text.contains("Run as if compare-svg was started in this directory"));

    let help = rejection(&["compare-svg", "serve", "--help"]);
    assert!(help.text.contains("Run the comparison web server in the foreground"));
    assert!(help
        .text
        .contains("Seconds to wait without browser activity before shutting down"));
    assert!(help.text.contains("[default: 30]"));

    let version = rejection(&["compare-svg", "--version"]);
    assert_eq!(version.text, "compare-svg 0.1.0\n");
}

#[test]
fn rejects_what_is_not_a_number() {
    assert!(rejection(&["compare-svg", "serve", "--timeout", "soon", "a.svg"]).is_error);
    assert!(rejection(&["compare-svg", "serve", "--timeout", "-1", "a.svg"]).is_error);
    assert!(rejection(&["compare-svg", "--timeout", "1", "a.svg"]).is_error);
}

#[test]
fn accepts_the_largest_timeout() {
    let cli = Cli::try_parse_from(arguments(&[
        "compare-svg",
        "serve",
        "--timeout=18446744073709551615",
        "a.svg",
    ]))
    .expect("serve arguments should parse");

    let Some(Commands::Serve(args)) = cli.command else {
        panic!("expected the serve command");
    };
    assert_eq!(args.timeout, u64::MAX);
}

#[test]
fn a_launched_server_compares_the_same_paths() {
    let paths = arguments(&["a.svg", "-C", "--timeout", "serve", "icons/b c.svg"]);
    let launched = server_arguments(&paths);
    assert_eq!(
        launched,
        arguments(&["serve", "--", "a.svg", "-C", "--timeout", "serve", "icons/b c.svg"])
    );

    let mut line = arguments(&["compare-svg"]);
    line.extend(launched);
    let cli = Cli::try_parse_from(line).expect("server arguments should parse");
    let Some(Commands::Serve(args)) = cli.command else {
        panic!("expected the serve command");
    };
    assert_eq!(args.paths, paths);
    assert_eq!(args.timeout, 30);
}

fn no_subcommand() -> Matches {
    Matches { directory: arguments(&["x", "y"]), paths: arguments(&["a.svg"]), subcommand: None }
}

fn subcommand(name: &str, timeout: Option<u64>) -> Matches {
    Matches {
        directory: Vec::new(),
        paths: Vec::new(),
        subcommand: Some(SubcommandMatches {
            name: name.to_string(),
            timeout,
            paths: arguments(&["a.svg", "b.svg"]),
        }),
    }
}

#[test]
fn values_make_a_command_line() {
    let cli = Cli::from_matches(no_subcommand()).expect("values should do");
    assert!(cli.command.is_none());
    assert_eq!(cli.directory, Some(PathBuf::from("x")));
    assert_eq!(cli.paths, arguments(&["a.svg"]));

    let cli = Cli::from_matches(subcommand("serve", Some(7))).expect("values should do");
    assert!(cli.directory.is_none());
    let Some(Commands::Serve(args)) = cli.command else {
        panic!("expected the serve command");
    };
    assert_eq!(args.timeout, 7);
    assert_eq!(args.paths, arguments(&["a.svg", "b.svg"]));
}

#[test]
fn values_can_make_no_command_line() {
    assert_eq!(
        Cli::from_matches(subcommand("served", Some(7))).unwrap_err(),
        UsageError::UnknownSubcommand
    );
    assert_eq!(
        Cli::from_matches(subcommand("serve", None)).unwrap_err(),
        UsageError::MissingTimeout
    );
}

#[test]
fn serves_or_launches() {
    let cli = Cli::from_matches(no_subcommand()).expect("values should do");
    match cli.task() {
        Task::Launch(paths) => assert_eq!(paths, arguments(&["a.svg"])),
        other => panic!("expected a launch, got {other:?}"),
    }
    let cli = Cli::from_matches(subcommand("serve", Some(7))).expect("values should do");
    match cli.task() {
        Task::Serve(args) => {
            assert_eq!(args.timeout, 7);
            assert_eq!(args.paths, arguments(&["a.svg", "b.svg"]));
        }
        other => panic!("expected a server, got {other:?}"),
    }
}

#[test]
fn rejects_empty_paths() {
    assert!(rejection(&["compare-svg", ""]).is_error);
    assert!(rejection(&["compare-svg", "serve", "--", ""]).is_error);
}

#[test]
fn takes_names_of_subcommands_for_paths_where_none_is_expected() {
    let cli = Cli::try_parse_from(arguments(&["x", "a.svg", "serve", "help"])).unwrap();
    assert!(cli.command.is_none());
    assert_eq!(cli.paths, arguments(&["a.svg", "serve", "help"]));

    let cli = Cli::try_parse_from(arguments(&["x", "serve", "serve", "help"])).unwrap();
    let Some(Commands::Serve(args)) = cli.command else {
        panic!("expected the serve command");
    };
    assert_eq!(args.paths, arguments(&["serve", "help"]));
    assert_eq!(args.timeout, DEFAULT_SHUTDOWN_TIMEOUT_SECONDS);

    let cli = Cli::try_parse_from(arguments(&["x", "-C", "serve", "a.svg"])).unwrap();
    assert_eq!(cli.directory, Some(PathBuf::from("serve")));
    assert_eq!(cli.paths, arguments(&["a.svg"]));

    assert!(!rejection(&["x", "help"]).is_error);
}

#[test]
fn says_why_it_cannot_change_the_directory() {
    let directory = SystemPath { syntax: Syntax::Unix, bytes: b"/a b".to_vec() };
    assert_eq!(
        directory_failure(&directory),
        "failed to change working directory to '/a b'"
    );
}

#[test]
fn styles_what_is_said_on_a_terminal() {
    let complaint = rejection(&["compare-svg"]);
    let is_styled =
        |surroundings: Surroundings| complaint.said_in(&surroundings) == complaint.styled;
    let terminal = Surroundings {
        is_terminal: true,
        supports_color: true,
        no_color: false,
        force_color: false,
        color: None,
        is_ci: false,
    };
    assert!(is_styled(terminal));
    assert!(!is_styled(Surroundings { is_terminal: false, ..terminal }));
    assert!(!is_styled(Surroundings { no_color: true, force_color: true, ..terminal }));
    assert!(is_styled(Surroundings { is_terminal: false, force_color: true, ..terminal }));
    assert!(!is_styled(Surroundings { color: Some(false), ..terminal }));
    assert!(!is_styled(Surroundings { supports_color: false, ..terminal }));
    assert!(is_styled(Surroundings { supports_color: false, color: Some(true), ..terminal }));
    assert!(is_styled(Surroundings { supports_color: false, is_ci: true, ..terminal }));
    assert_eq!(complaint.said_in(&Surroundings { no_color: true, ..terminal }), complaint.text);
}
