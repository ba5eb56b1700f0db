//! Why the versions of files cannot be loaded.

use vstd::prelude::*;

use crate::page::{show_path, shown_path};
use crate::path::{PathView, SystemPath};

verus! {

/// Why the versions could not be loaded.
#[derive(Debug)]
pub enum LoadError<P> {
    /// A path does not name an SVG file.
    NotSvg { path: P },
    /// There is nothing at a path.
    NotFound { path: P },
    /// What is at a path is not a file.
    NotAFile { path: P },
    /// No paths were given.
    NoPaths,
    /// A path has no parent directory.
    NoParent,
    /// A file is in no Git repository.
    NoRepository { path: P },
    /// The repository has no working tree.
    NoWorktree,
    /// The working tree cannot be resolved.
    UnresolvedWorktree { worktree: P, path: P },
    /// A file is in another working tree than the first file.
    OtherWorktree { path: P, worktree: P, expected: P },
    /// `HEAD` is not a commit.
    NoHead,
    /// The commit has no tree that can be loaded.
    NoTree,
    /// A file is outside the working tree.
    OutsideWorktree { path: P, worktree: P },
    /// A file cannot be read.
    Unreadable { path: P },
    /// A path cannot be looked up at `HEAD`.
    LookupFailed { relative: P },
    /// What is at a path at `HEAD` cannot be loaded.
    ObjectFailed { relative: P },
    /// What is at a path at `HEAD` is not a file.
    NotAFileAtHead { relative: P },
}

/// What a [`LoadError`] is.
pub open spec fn error_view(error: LoadError<SystemPath>) -> LoadError<PathView> {
    match error {
        LoadError::NotSvg { path } => LoadError::NotSvg { path: path@ },
        LoadError::NotFound { path } => LoadError::NotFound { path: path@ },
        LoadError::NotAFile { path } => LoadError::NotAFile { path: path@ },
        LoadError::NoPaths => LoadError::NoPaths,
        LoadError::NoParent => LoadError::NoParent,
        LoadError::NoRepository { path } => LoadError::NoRepository { path: path@ },
        LoadError::NoWorktree => LoadError::NoWorktree,
        LoadError::UnresolvedWorktree { worktree, path } => LoadError::UnresolvedWorktree {
            worktree: worktree@,
            path: path@,
        },
        LoadError::OtherWorktree { path, worktree, expected } => LoadError::OtherWorktree {
            path: path@,
            worktree: worktree@,
            expected: expected@,
        },
        LoadError::NoHead => LoadError::NoHead,
        LoadError::NoTree => LoadError::NoTree,
        LoadError::OutsideWorktree { path, worktree } => LoadError::OutsideWorktree {
            path: path@,
            worktree: worktree@,
        },
        LoadError::Unreadable { path } => LoadError::Unreadable { path: path@ },
        LoadError::LookupFailed { relative } => LoadError::LookupFailed { relative: relative@ },
        LoadError::ObjectFailed { relative } => LoadError::ObjectFailed { relative: relative@ },
        LoadError::NotAFileAtHead { relative } => LoadError::NotAFileAtHead {
            relative: relative@,
        },
    }
}

/// What is said about an error.
pub open spec fn error_text(error: LoadError<PathView>) -> Seq<char> {
    match error {
        LoadError::NotSvg { path } => "expected an .svg file, got '"@ + shown_path(path) + "'"@,
        LoadError::NotFound { path } => "failed to find SVG at '"@ + shown_path(path) + "'"@,
        LoadError::NotAFile { path } => "'"@ + shown_path(path) + "' is not a file"@,
        LoadError::NoPaths => "at least one SVG path is required"@,
        LoadError::NoParent => "the SVG path does not have a parent directory"@,
        LoadError::NoRepository { path } => "failed to discover a Git repository containing '"@ + shown_path(path) + "'"@,
        LoadError::NoWorktree => "the discovered Git repository does not have a working tree"@,
        LoadError::UnresolvedWorktree { worktree, path } => "failed to resolve Git worktree '"@ + shown_path(worktree) + "' containing '"@ + shown_path(path) + "'"@,
        LoadError::OtherWorktree { path, worktree, expected } => "SVG '"@ + shown_path(path) + "' belongs to Git worktree '"@ + shown_path(worktree) + "', but expected worktree '"@ + shown_path(expected) + "'"@,
        LoadError::NoHead => "failed to resolve HEAD to a commit; the repository may not have any commits"@,
        LoadError::NoTree => "failed to load the tree at HEAD"@,
        LoadError::OutsideWorktree { path, worktree } => "SVG '"@ + shown_path(path) + "' is outside repository working tree '"@ + shown_path(worktree) + "'"@,
        LoadError::Unreadable { path } => "failed to read current SVG at '"@ + shown_path(path) + "'"@,
        LoadError::LookupFailed { relative } => "failed to look up '"@ + shown_path(relative) + "' in the tree at HEAD"@,
        LoadError::ObjectFailed { relative } => "failed to load '"@ + shown_path(relative) + "' from HEAD"@,
        LoadError::NotAFileAtHead { relative } => "'"@ + shown_path(relative) + "' is not a file at HEAD"@,
    }
}

/// Appends the text that is shown for a path.
fn push_path(text: &mut String, path: &SystemPath)
    ensures
        final(text)@ == old(text)@ + shown_path(path@),
{
    text.append(show_path(path).as_str());
}

impl LoadError<SystemPath> {
    /// What is said about the error.
    pub fn message(&self) -> (text: String)
        ensures
            text@ == error_text(error_view(*self)),
    {
        match self {
            LoadError::NotSvg { path } => {
                let mut text = "expected an .svg file, got '".to_owned();
                push_path(&mut text, path);
                text.append("'");
                text
            },
            LoadError::NotFound { path } => {
                let mut text = "failed to find SVG at '".to_owned();
                push_path(&mut text, path);
                text.append("'");
                text
            },
            LoadError::NotAFile { path } => {
                let mut text = "'".to_owned();
                push_path(&mut text, path);
                text.append("' is not a file");
                text
            },
            LoadError::NoPaths => {
                "at least one SVG path is required".to_owned()
            },
            LoadError::NoParent => {
                "the SVG path does not have a parent directory".to_owned()
            },
            LoadError::NoRepository { path } => {
                let mut text = "failed to discover a Git repository containing '".to_owned();
                push_path(&mut text, path);
                text.append("'");
                text
            },
            LoadError::NoWorktree => {
                "the discovered Git repository does not have a working tree".to_owned()
            },
            LoadError::UnresolvedWorktree { worktree, path } => {
                let mut text = "failed to resolve Git worktree '".to_owned();
                push_path(&mut text, worktree);
                text.append("' containing '");
                push_path(&mut text, path);
                text.append("'");
                text
            },
            LoadError::OtherWorktree { path, worktree, expected } => {
                let mut text = "SVG '".to_owned();
                push_path(&mut text, path);
                text.append("' belongs to Git worktree '");
                push_path(&mut text, worktree);
                text.append("', but expected worktree '");
                push_path(&mut text, expected);
                text.append("'");
                text
            },
            LoadError::NoHead => {
                "failed to resolve HEAD to a commit; the repository may not have any commits".to_owned()
            },
            LoadError::NoTree => {
                "failed to load the tree at HEAD".to_owned()
            },
            LoadError::OutsideWorktree { path, worktree } => {
                let mut text = "SVG '".to_owned();
                push_path(&mut text, path);
                text.append("' is outside repository working tree '");
                push_path(&mut text, worktree);
                text.append("'");
                text
            },
            LoadError::Unreadable { path } => {
                let mut text = "failed to read current SVG at '".to_owned();
                push_path(&mut text, path);
                text.append("'");
                text
            },
            LoadError::LookupFailed { relative } => {
                let mut text = "failed to look up '".to_owned();
                push_path(&mut text, relative);
                text.append("' in the tree at HEAD");
                text
            },
            LoadError::ObjectFailed { relative } => {
                let mut text = "failed to load '".to_owned();
                push_path(&mut text, relative);
                text.append("' from HEAD");
                text
            },
            LoadError::NotAFileAtHead { relative } => {
                let mut text = "'".to_owned();
                push_path(&mut text, relative);
                text.append("' is not a file at HEAD");
                text
            },
        }
    }
}

/// Whether `text` is made of `before`, `path` as it is shown, and `after`.
pub open spec fn names(
    text: Seq<char>,
    before: Seq<char>,
    path: PathView,
    after: Seq<char>,
) -> bool {
    &&& text.len() == before.len() + shown_path(path).len() + after.len()
    &&& text.take(before.len() as int) == before
    &&& text.skip((text.len() - after.len()) as int) == after
    &&& text.subrange(before.len() as int, (text.len() - after.len()) as int) == shown_path(path)
}

pub(crate) proof fn lemma_names(before: Seq<char>, path: PathView, after: Seq<char>)
    ensures
        names(before + shown_path(path) + after, before, path, after),
{
    let text = before + shown_path(path) + after;
    assert(text.take(before.len() as int) =~= before);
    assert(text.skip((text.len() - after.len()) as int) =~= after);
    assert(text.subrange(before.len() as int, (text.len() - after.len()) as int) =~= shown_path(
        path,
    ));
}

/// What is said about a path names that path, and says what is wrong with it.
pub proof fn lemma_message_names_path(path: SystemPath)
    ensures
        names(
            error_text(error_view(LoadError::NotSvg { path })),
            "expected an .svg file, got '"@,
            path@,
            "'"@,
        ),
        names(
            error_text(error_view(LoadError::NotFound { path })),
            "failed to find SVG at '"@,
            path@,
            "'"@,
        ),
        names(
            error_text(error_view(LoadError::NotAFile { path })),
            "'"@,
            path@,
            "' is not a file"@,
        ),
        names(
            error_text(error_view(LoadError::NoRepository { path })),
            "failed to discover a Git repository containing '"@,
            path@,
            "'"@,
        ),
        names(
            error_text(error_view(LoadError::Unreadable { path })),
            "failed to read current SVG at '"@,
            path@,
            "'"@,
        ),
        names(
            error_text(error_view(LoadError::LookupFailed { relative: path })),
            "failed to look up '"@,
            path@,
            "' in the tree at HEAD"@,
        ),
        names(
            error_text(error_view(LoadError::ObjectFailed { relative: path })),
            "failed to load '"@,
            path@,
            "' from HEAD"@,
        ),
        names(
            error_text(error_view(LoadError::NotAFileAtHead { relative: path })),
            "'"@,
            path@,
            "' is not a file at HEAD"@,
        ),
{
    lemma_names("expected an .svg file, got '"@, path@, "'"@);
    lemma_names("failed to find SVG at '"@, path@, "'"@);
    lemma_names("'"@, path@, "' is not a file"@);
    lemma_names("failed to discover a Git repository containing '"@, path@, "'"@);
    lemma_names("failed to read current SVG at '"@, path@, "'"@);
    lemma_names("failed to look up '"@, path@, "' in the tree at HEAD"@);
    lemma_names("failed to load '"@, path@, "' from HEAD"@);
    lemma_names("'"@, path@, "' is not a file at HEAD"@);
}

/// What is said about a working tree names it and the file concerned, each as what it
/// is.
pub proof fn lemma_message_names_worktree(
    path: SystemPath,
    worktree: SystemPath,
    expected: SystemPath,
)
    ensures
        names(
            error_text(error_view(LoadError::UnresolvedWorktree { worktree, path })),
            "failed to resolve Git worktree '"@ + shown_path(worktree@) + "' containing '"@,
            path@,
            "'"@,
        ),
        names(
            error_text(error_view(LoadError::OutsideWorktree { path, worktree })),
            "SVG '"@ + shown_path(path@) + "' is outside repository working tree '"@,
            worktree@,
            "'"@,
        ),
        names(
            error_text(error_view(LoadError::OtherWorktree { path, worktree, expected })),
            "SVG '"@ + shown_path(path@) + "' belongs to Git worktree '"@ + shown_path(worktree@)
                + "', but expected worktree '"@,
            expected@,
            "'"@,
        ),
{
    lemma_names(
        "failed to resolve Git worktree '"@ + shown_path(worktree@) + "' containing '"@,
        path@,
        "'"@,
    );
    lemma_names(
        "SVG '"@ + shown_path(path@) + "' is outside repository working tree '"@,
        worktree@,
        "'"@,
    );
    lemma_names(
        "SVG '"@ + shown_path(path@) + "' belongs to Git worktree '"@ + shown_path(worktree@)
            + "', but expected worktree '"@,
        expected@,
        "'"@,
    );
}

/// What is said where no path is concerned.
pub proof fn lemma_message_without_path()
    ensures
        error_text(error_view(LoadError::NoPaths)) == "at least one SVG path is required"@,
        error_text(error_view(LoadError::NoParent))
            == "the SVG path does not have a parent directory"@,
        error_text(error_view(LoadError::NoWorktree))
            == "the discovered Git repository does not have a working tree"@,
        error_text(error_view(LoadError::NoHead))
            == "failed to resolve HEAD to a commit; the repository may not have any commits"@,
        error_text(error_view(LoadError::NoTree)) == "failed to load the tree at HEAD"@,
{
}

} // verus!
