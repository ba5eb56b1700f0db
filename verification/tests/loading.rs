use compare_svg::load::{
    load_versions, CurrentReply, HeadReply, LoadStep, PathReply, PreviousReply, WorktreeReply,
};
use compare_svg::load_error::LoadError;
use compare_svg::page::SnapshotVersions;
use compare_svg::path::{Syntax, SystemPath};

fn unix(path: &[u8]) -> SystemPath {
    SystemPath { syntax: Syntax::Unix, bytes: path.to_vec() }
}

fn windows(path: &str) -> SystemPath {
    SystemPath { syntax: Syntax::Windows, bytes: path.as_bytes().to_vec() }
}

/// A working tree at `/repo`, and what is asked of it.
struct Repository {
    is_file: bool,
    missing: &'static str,
    other_worktree: &'static str,
    worktree: fn() -> WorktreeReply<SystemPath>,
    head: HeadReply,
    unreadable: bool,
    previous: fn(&[u8]) -> PreviousReply<Vec<u8>>,
    outside: bool,
}

const REPOSITORY: Repository = Repository {
    is_file: true,
    missing: "",
    other_worktree: "",
    worktree: || WorktreeReply::At { worktree: unix(b"/repo") },
    head: HeadReply::Open,
    unreadable: false,
    previous: |relative| {
        if relative == b"new.svg" {
            PreviousReply::Absent
        } else {
            PreviousReply::Contents { contents: [b"old ", relative].concat() }
        }
    },
    outside: false,
};

impl Repository {
    fn canonical(&self, input: &str) -> SystemPath {
        if self.outside {
            unix(format!("/elsewhere/{input}").as_bytes())
        } else {
            unix(format!("/repo/{input}").as_bytes())
        }
    }

    fn worktree_of(&self, input: &str) -> WorktreeReply<SystemPath> {
        if input == self.other_worktree {
            WorktreeReply::At { worktree: unix(b"/other") }
        } else {
            (self.worktree)()
        }
    }

    fn load(&self, inputs: &[&str]) -> (Result<Vec<SnapshotVersions>, String>, usize) {
        let mut step = load_versions(inputs.iter().map(|input| unix(input.as_bytes())).collect());
        let mut answers = 0;
        loop {
            step = match step {
                LoadStep::Path(pending) => {
                    let input = inputs[pending.index()];
                    if input == self.missing {
                        pending.answer(PathReply::Missing)
                    } else {
                        pending.answer(PathReply::Found {
                            path: self.canonical(input),
                            is_file: self.is_file,
                        })
                    }
                }
                LoadStep::FirstWorktree(pending) => pending.answer(self.worktree_of(inputs[0])),
                LoadStep::Worktree(pending) => {
                    let input = inputs[pending.index()];
                    pending.answer(self.worktree_of(input))
                }
                LoadStep::Head(pending) => pending.answer(self.head),
                LoadStep::Current(pending) => {
                    let input = inputs[pending.index()];
                    pending.answer(if self.unreadable {
                        CurrentReply::Unreadable
                    } else {
                        CurrentReply::Contents { contents: format!("new {input}").into_bytes() }
                    })
                }
                LoadStep::Previous(pending) => {
                    let reply = (self.previous)(&pending.relative_path().bytes);
                    pending.answer(reply)
                }
                LoadStep::Loaded(versions) => return (Ok(versions), answers),
                LoadStep::Failed(error) => return (Err(error.message()), answers),
            };
            answers += 1;
        }
    }

    fn complaint(&self, inputs: &[&str]) -> String {
        self.load(inputs).0.unwrap_err()
    }
}

#[test]
fn loads_every_file_in_order() {
    let (versions, answers) = REPOSITORY.load(&["icons/a.svg", "new.svg"]);
    let versions = versions.unwrap();

    assert_eq!(versions.len(), 2);
    assert_eq!(versions[0].repository_relative_path.bytes, b"icons/a.svg");
    assert_eq!(versions[0].previous, Some(b"old icons/a.svg".to_vec()));
    assert_eq!(versions[0].current, b"new icons/a.svg");
    assert_eq!(versions[1].repository_relative_path.bytes, b"new.svg");
    assert_eq!(versions[1].previous, None);
    assert_eq!(versions[1].current, b"new new.svg");
    assert_eq!(answers, 4 * 2 + 2);
}

#[test]
fn complains_about_paths() {
    assert_eq!(REPOSITORY.complaint(&[]), "at least one SVG path is required");
    assert_eq!(
        REPOSITORY.complaint(&["a.svg", "b.png", "c.svg"]),
        "expected an .svg file, got 'b.png'"
    );
    let missing = Repository { missing: "b.svg", ..REPOSITORY };
    assert_eq!(missing.complaint(&["a.svg", "b.svg"]), "failed to find SVG at 'b.svg'");
    let directory = Repository { is_file: false, ..REPOSITORY };
    assert_eq!(directory.complaint(&["a.svg"]), "'/repo/a.svg' is not a file");
}

#[test]
fn complains_about_paths_before_anything_else() {
    let broken = Repository { head: HeadReply::NoCommit, missing: "b.svg", ..REPOSITORY };
    let (result, answers) = broken.load(&["a.svg", "b.svg", "c.png"]);
    assert_eq!(result.unwrap_err(), "failed to find SVG at 'b.svg'");
    assert_eq!(answers, 2);
}

#[test]
fn complains_about_working_trees() {
    let complaint = |worktree: fn() -> WorktreeReply<SystemPath>| {
        Repository { worktree, ..REPOSITORY }.complaint(&["a.svg"])
    };
    assert_eq!(
        complaint(|| WorktreeReply::NoRepository),
        "failed to discover a Git repository containing '/repo/a.svg'"
    );
    assert_eq!(
        complaint(|| WorktreeReply::Bare),
        "the discovered Git repository does not have a working tree"
    );
    assert_eq!(
        complaint(|| WorktreeReply::Unresolved { worktree: unix(b"/w") }),
        "failed to resolve Git worktree '/w' containing '/repo/a.svg'"
    );
    let other = Repository { other_worktree: "b.svg", ..REPOSITORY };
    assert_eq!(
        other.complaint(&["a.svg", "b.svg"]),
        "SVG '/repo/b.svg' belongs to Git worktree '/other', but expected worktree '/repo'"
    );
}

#[test]
fn complains_about_head() {
    let unborn = Repository { head: HeadReply::NoCommit, ..REPOSITORY };
    assert_eq!(
        unborn.complaint(&["a.svg"]),
        "failed to resolve HEAD to a commit; the repository may not have any commits"
    );
    let broken = Repository { head: HeadReply::NoTree, ..REPOSITORY };
    assert_eq!(broken.complaint(&["a.svg"]), "failed to load the tree at HEAD");
}

#[test]
fn complains_about_contents() {
    let outside = Repository { outside: true, ..REPOSITORY };
    assert_eq!(
        outside.complaint(&["a.svg"]),
        "SVG '/elsewhere/a.svg' is outside repository working tree '/repo'"
    );
    let unreadable = Repository { unreadable: true, ..REPOSITORY };
    assert_eq!(unreadable.complaint(&["a.svg"]), "failed to read current SVG at '/repo/a.svg'");

    let complaint = |previous: fn(&[u8]) -> PreviousReply<Vec<u8>>| {
        Repository { previous, ..REPOSITORY }.complaint(&["icons/a.svg"])
    };
    assert_eq!(
        complaint(|_| PreviousReply::LookupFailed),
        "failed to look up 'icons/a.svg' in the tree at HEAD"
    );
    assert_eq!(
        complaint(|_| PreviousReply::ObjectFailed),
        "failed to load 'icons/a.svg' from HEAD"
    );
    assert_eq!(complaint(|_| PreviousReply::NotAFile), "'icons/a.svg' is not a file at HEAD");
}

#[test]
fn complains_about_a_path_without_a_parent() {
    let LoadStep::Path(pending) = load_versions(vec![unix(b"a.svg")]) else {
        panic!("expected a question");
    };
    let step = pending.answer(PathReply::Found { path: unix(b"/"), is_file: true });
    let LoadStep::Failed(error) = step else {
        panic!("expected a failure");
    };
    assert!(matches!(error, LoadError::NoParent));
    assert_eq!(error.message(), "the SVG path does not have a parent directory");
}

#[test]
fn working_trees_may_be_written_differently() {
    let slash = Repository {
        worktree: || WorktreeReply::At { worktree: unix(b"/repo/") },
        ..REPOSITORY
    };
    let versions = slash.load(&["a.svg", "b.svg"]).0.unwrap();
    assert_eq!(versions[1].repository_relative_path.bytes, b"b.svg");
}

#[test]
fn loads_from_a_windows_working_tree() {
    let LoadStep::Path(pending) = load_versions(vec![windows(r"icons\a.SVG")]) else {
        panic!("expected a question");
    };
    let path = windows(r"\\?\C:\repo\icons\a.SVG");
    let LoadStep::FirstWorktree(pending) =
        pending.answer(PathReply::Found { path, is_file: true })
    else {
        panic!("expected a question");
    };
    let worktree = || WorktreeReply::At { worktree: windows(r"\\?\c:\repo") };
    let LoadStep::Worktree(pending) = pending.answer(worktree()) else {
        panic!("expected a question");
    };
    let LoadStep::Head(pending) = pending.answer(worktree()) else {
        panic!("expected a question");
    };
    let LoadStep::Current(pending) = pending.answer(HeadReply::Open) else {
        panic!("expected a question");
    };
    let contents = b"new".to_vec();
    let LoadStep::Previous(pending) = pending.answer(CurrentReply::Contents { contents }) else {
        panic!("expected a question");
    };
    assert_eq!(pending.relative_path().bytes, br"icons\a.SVG");
    let LoadStep::Loaded(versions) = pending.answer(PreviousReply::Absent) else {
        panic!("expected the versions");
    };
    assert_eq!(versions[0].repository_relative_path.bytes, br"icons\a.SVG");
}
