//! Loading the versions of some SVG files.
//!
//! The file system and the repository are asked one question at a time: each
//! [`LoadStep`] says what to find out next, and answering it gives the next step.

use vstd::prelude::*;

use crate::load_error::{error_view, LoadError};
use crate::page::{all_versions, SnapshotVersions, VersionsView};
use crate::path::{
    all_paths, components, has_parent, has_parent_spec, is_svg, is_svg_spec, is_under, relative_to,
    same_path, strip_prefix, PathView, SystemPath,
};
use crate::path_laws::{lemma_relative_rejoins, reads_alike};

verus! {

/// What is at a given path.
#[derive(Debug)]
pub enum PathReply<P> {
    /// Something, at this path when links are resolved.
    Found { path: P, is_file: bool },
    /// Nothing that can be found.
    Missing,
}

/// The working tree that a file is in.
#[derive(Debug)]
pub enum WorktreeReply<P> {
    /// The one at this path when links are resolved.
    At { worktree: P },
    /// None, as the file is in no repository.
    NoRepository,
    /// None, as the repository has none.
    Bare,
    /// The one at this path, which cannot be resolved.
    Unresolved { worktree: P },
}

/// Whether the tree at `HEAD` can be looked into.
#[derive(Clone, Copy, Debug, Eq, PartialEq, Structural)]
pub enum HeadReply {
    /// It can.
    Open,
    /// `HEAD` is not a commit.
    NoCommit,
    /// The commit has no tree that can be loaded.
    NoTree,
}

/// The contents of a file in the working tree.
#[derive(Debug)]
pub enum CurrentReply<P> {
    /// These.
    Contents { contents: P },
    /// They cannot be read.
    Unreadable,
}

/// The contents of a file at `HEAD`.
#[derive(Debug)]
pub enum PreviousReply<P> {
    /// These.
    Contents { contents: P },
    /// None, as there is nothing at its path.
    Absent,
    /// The path cannot be looked up.
    LookupFailed,
    /// What is at the path cannot be loaded.
    ObjectFailed,
    /// What is at the path is not a file.
    NotAFile,
}

pub open spec fn path_reply_view(reply: PathReply<SystemPath>) -> PathReply<PathView> {
    match reply {
        PathReply::Found { path, is_file } => PathReply::Found { path: path@, is_file },
        PathReply::Missing => PathReply::Missing,
    }
}

pub open spec fn worktree_reply_view(reply: WorktreeReply<SystemPath>) -> WorktreeReply<PathView> {
    match reply {
        WorktreeReply::At { worktree } => WorktreeReply::At { worktree: worktree@ },
        WorktreeReply::NoRepository => WorktreeReply::NoRepository,
        WorktreeReply::Bare => WorktreeReply::Bare,
        WorktreeReply::Unresolved { worktree } => WorktreeReply::Unresolved {
            worktree: worktree@,
        },
    }
}

pub open spec fn current_reply_view(reply: CurrentReply<Vec<u8>>) -> CurrentReply<Seq<u8>> {
    match reply {
        CurrentReply::Contents { contents } => CurrentReply::Contents { contents: contents@ },
        CurrentReply::Unreadable => CurrentReply::Unreadable,
    }
}

pub open spec fn previous_reply_view(reply: PreviousReply<Vec<u8>>) -> PreviousReply<Seq<u8>> {
    match reply {
        PreviousReply::Contents { contents } => PreviousReply::Contents { contents: contents@ },
        PreviousReply::Absent => PreviousReply::Absent,
        PreviousReply::LookupFailed => PreviousReply::LookupFailed,
        PreviousReply::ObjectFailed => PreviousReply::ObjectFailed,
        PreviousReply::NotAFile => PreviousReply::NotAFile,
    }
}

/// What a [`LoadStep`] is.
pub enum StepView {
    /// What is at the input after those that are resolved?
    Path { inputs: Seq<PathView>, paths: Seq<PathView> },
    /// Which working tree is the first file in?
    FirstWorktree { paths: Seq<PathView> },
    /// Which working tree is the file after those checked in?
    Worktree { paths: Seq<PathView>, worktree: PathView, checked: nat },
    /// Can the tree at `HEAD` be looked into?
    Head { paths: Seq<PathView>, worktree: PathView },
    /// What does the file after those loaded hold in the working tree?
    Current { paths: Seq<PathView>, worktree: PathView, versions: Seq<VersionsView> },
    /// What does it hold at `HEAD`?
    Previous {
        paths: Seq<PathView>,
        worktree: PathView,
        versions: Seq<VersionsView>,
        current: Seq<u8>,
    },
    /// All versions are loaded.
    Loaded { versions: Seq<VersionsView> },
    /// They cannot be loaded.
    Failed { error: LoadError<PathView> },
}

/// The step when some inputs are resolved.
pub open spec fn resolving(inputs: Seq<PathView>, paths: Seq<PathView>) -> StepView {
    if paths.len() < inputs.len() {
        let input = inputs[paths.len() as int];
        if is_svg_spec(input) {
            StepView::Path { inputs, paths }
        } else {
            StepView::Failed { error: LoadError::NotSvg { path: input } }
        }
    } else if paths.len() == 0 {
        StepView::Failed { error: LoadError::NoPaths }
    } else if has_parent_spec(paths[0]) {
        StepView::FirstWorktree { paths }
    } else {
        StepView::Failed { error: LoadError::NoParent }
    }
}

/// The step when some files are known to be in the working tree of the first.
pub open spec fn comparing(paths: Seq<PathView>, worktree: PathView, checked: nat) -> StepView {
    if checked < paths.len() {
        if has_parent_spec(paths[checked as int]) {
            StepView::Worktree { paths, worktree, checked }
        } else {
            StepView::Failed { error: LoadError::NoParent }
        }
    } else {
        StepView::Head { paths, worktree }
    }
}

/// The step when the versions of some files are loaded.
pub open spec fn reading(
    paths: Seq<PathView>,
    worktree: PathView,
    versions: Seq<VersionsView>,
) -> StepView {
    if versions.len() < paths.len() {
        let path = paths[versions.len() as int];
        if is_under(path, worktree) {
            StepView::Current { paths, worktree, versions }
        } else {
            StepView::Failed { error: LoadError::OutsideWorktree { path, worktree } }
        }
    } else {
        StepView::Loaded { versions }
    }
}

/// The path of an SVG file that was given as `input`, or why there is none.
pub open spec fn resolved(
    input: PathView,
    reply: PathReply<PathView>,
) -> Result<PathView, LoadError<PathView>> {
    if !is_svg_spec(input) {
        Err(LoadError::NotSvg { path: input })
    } else {
        match reply {
            PathReply::Missing => Err(LoadError::NotFound { path: input }),
            PathReply::Found { path, is_file } => if is_file {
                Ok(path)
            } else {
                Err(LoadError::NotAFile { path })
            },
        }
    }
}

/// The working tree of the file at `path`, or why there is none.
pub open spec fn worktree_of(
    path: PathView,
    reply: WorktreeReply<PathView>,
) -> Result<PathView, LoadError<PathView>> {
    if !has_parent_spec(path) {
        Err(LoadError::NoParent)
    } else {
        match reply {
            WorktreeReply::At { worktree } => Ok(worktree),
            WorktreeReply::NoRepository => Err(LoadError::NoRepository { path }),
            WorktreeReply::Bare => Err(LoadError::NoWorktree),
            WorktreeReply::Unresolved { worktree } => Err(
                LoadError::UnresolvedWorktree { worktree, path },
            ),
        }
    }
}

/// That the file at `path` is in the working tree `expected`, or what speaks
/// against it.
pub open spec fn in_worktree(
    path: PathView,
    reply: WorktreeReply<PathView>,
    expected: PathView,
) -> Result<(), LoadError<PathView>> {
    match worktree_of(path, reply) {
        Ok(worktree) => if components(worktree) == components(expected) {
            Ok(())
        } else {
            Err(LoadError::OtherWorktree { path, worktree, expected })
        },
        Err(error) => Err(error),
    }
}

/// The contents at `HEAD` of the file at `relative`, or why they are not known.
pub open spec fn contents_at_head(
    relative: PathView,
    reply: PreviousReply<Seq<u8>>,
) -> Result<Option<Seq<u8>>, LoadError<PathView>> {
    match reply {
        PreviousReply::Contents { contents } => Ok(Some(contents)),
        PreviousReply::Absent => Ok(None),
        PreviousReply::LookupFailed => Err(LoadError::LookupFailed { relative }),
        PreviousReply::ObjectFailed => Err(LoadError::ObjectFailed { relative }),
        PreviousReply::NotAFile => Err(LoadError::NotAFileAtHead { relative }),
    }
}

/// The two versions of the file at `path`, or why they are not known.
pub open spec fn versions_of(
    path: PathView,
    worktree: PathView,
    current: CurrentReply<Seq<u8>>,
    previous: PreviousReply<Seq<u8>>,
) -> Result<VersionsView, LoadError<PathView>> {
    if !is_under(path, worktree) {
        Err(LoadError::OutsideWorktree { path, worktree })
    } else {
        match current {
            CurrentReply::Unreadable => Err(LoadError::Unreadable { path }),
            CurrentReply::Contents { contents } => {
                let relative = relative_to(path, worktree);
                match contents_at_head(relative, previous) {
                    Ok(previous) => Ok(
                        VersionsView { path: relative, previous, current: contents },
                    ),
                    Err(error) => Err(error),
                }
            },
        }
    }
}

/// The step after the answer to [`StepView::Path`].
pub open spec fn after_path(
    inputs: Seq<PathView>,
    paths: Seq<PathView>,
    reply: PathReply<PathView>,
) -> StepView {
    match resolved(inputs[paths.len() as int], reply) {
        Ok(path) => resolving(inputs, paths.push(path)),
        Err(error) => StepView::Failed { error },
    }
}

/// The step after the answer to [`StepView::FirstWorktree`].
pub open spec fn after_first_worktree(
    paths: Seq<PathView>,
    reply: WorktreeReply<PathView>,
) -> StepView {
    match worktree_of(paths[0], reply) {
        Ok(worktree) => comparing(paths, worktree, 0),
        Err(error) => StepView::Failed { error },
    }
}

/// The step after the answer to [`StepView::Worktree`].
pub open spec fn after_worktree(
    paths: Seq<PathView>,
    worktree: PathView,
    checked: nat,
    reply: WorktreeReply<PathView>,
) -> StepView {
    match in_worktree(paths[checked as int], reply, worktree) {
        Ok(_) => comparing(paths, worktree, checked + 1),
        Err(error) => StepView::Failed { error },
    }
}

/// The step after the answer to [`StepView::Head`].
pub open spec fn after_head(
    paths: Seq<PathView>,
    worktree: PathView,
    reply: HeadReply,
) -> StepView {
    match reply {
        HeadReply::Open => reading(paths, worktree, Seq::empty()),
        HeadReply::NoCommit => StepView::Failed { error: LoadError::NoHead },
        HeadReply::NoTree => StepView::Failed { error: LoadError::NoTree },
    }
}

/// The step after the answer to [`StepView::Current`].
pub open spec fn after_current(
    paths: Seq<PathView>,
    worktree: PathView,
    versions: Seq<VersionsView>,
    reply: CurrentReply<Seq<u8>>,
) -> StepView {
    match reply {
        CurrentReply::Contents { contents } => StepView::Previous {
            paths,
            worktree,
            versions,
            current: contents,
        },
        CurrentReply::Unreadable => StepView::Failed {
            error: LoadError::Unreadable { path: paths[versions.len() as int] },
        },
    }
}

/// The step after the answer to [`StepView::Previous`].
pub open spec fn after_previous(
    paths: Seq<PathView>,
    worktree: PathView,
    versions: Seq<VersionsView>,
    current: Seq<u8>,
    reply: PreviousReply<Seq<u8>>,
) -> StepView {
    let relative = relative_to(paths[versions.len() as int], worktree);
    match contents_at_head(relative, reply) {
        Ok(previous) => reading(
            paths,
            worktree,
            versions.push(VersionsView { path: relative, previous, current }),
        ),
        Err(error) => StepView::Failed { error },
    }
}

/// What to find out next, or what came out.
pub enum LoadStep {
    /// What is at an input?
    Path(PendingPath),
    /// Which working tree is the first file in?
    FirstWorktree(PendingFirstWorktree),
    /// Which working tree is a file in?
    Worktree(PendingWorktree),
    /// Can the tree at `HEAD` be looked into?
    Head(PendingHead),
    /// What does a file hold in the working tree?
    Current(PendingCurrent),
    /// What does a file hold at `HEAD`?
    Previous(PendingPrevious),
    /// All versions are loaded.
    Loaded(Vec<SnapshotVersions>),
    /// They cannot be loaded.
    Failed(LoadError<SystemPath>),
}

/// The question what is at an input.
pub struct PendingPath {
    inputs: Vec<SystemPath>,
    paths: Vec<SystemPath>,
}

/// The question which working tree the first file is in.
pub struct PendingFirstWorktree {
    paths: Vec<SystemPath>,
}

/// The question which working tree a file is in.
pub struct PendingWorktree {
    paths: Vec<SystemPath>,
    worktree: SystemPath,
    checked: usize,
}

/// The question whether the tree at `HEAD` can be looked into.
pub struct PendingHead {
    paths: Vec<SystemPath>,
    worktree: SystemPath,
}

/// The question what a file holds in the working tree.
pub struct PendingCurrent {
    paths: Vec<SystemPath>,
    worktree: SystemPath,
    versions: Vec<SnapshotVersions>,
    relative: SystemPath,
}

/// The question what a file holds at `HEAD`.
pub struct PendingPrevious {
    paths: Vec<SystemPath>,
    worktree: SystemPath,
    versions: Vec<SnapshotVersions>,
    relative: SystemPath,
    current: Vec<u8>,
}

impl PendingPath {
    /// The inputs.
    pub closed spec fn inputs_view(self) -> Seq<PathView> {
        all_paths(self.inputs@)
    }

    /// The paths of the files that are resolved.
    pub closed spec fn paths_view(self) -> Seq<PathView> {
        all_paths(self.paths@)
    }
}

impl View for PendingPath {
    type V = StepView;

    open spec fn view(&self) -> StepView {
        StepView::Path {
            inputs: self.inputs_view(),
            paths: self.paths_view(),
        }
    }
}

impl PendingFirstWorktree {
    /// The paths of the files that are resolved.
    pub closed spec fn paths_view(self) -> Seq<PathView> {
        all_paths(self.paths@)
    }
}

impl View for PendingFirstWorktree {
    type V = StepView;

    open spec fn view(&self) -> StepView {
        StepView::FirstWorktree {
            paths: self.paths_view(),
        }
    }
}

impl PendingWorktree {
    /// The paths of the files that are resolved.
    pub closed spec fn paths_view(self) -> Seq<PathView> {
        all_paths(self.paths@)
    }

    /// The working tree of the first file.
    pub closed spec fn worktree_view(self) -> PathView {
        self.worktree@
    }

    /// The number of files that are known to be in it.
    pub closed spec fn checked_view(self) -> nat {
        self.checked as nat
    }
}

impl View for PendingWorktree {
    type V = StepView;

    open spec fn view(&self) -> StepView {
        StepView::Worktree {
            paths: self.paths_view(),
            worktree: self.worktree_view(),
            checked: self.checked_view(),
        }
    }
}

impl PendingHead {
    /// The paths of the files that are resolved.
    pub closed spec fn paths_view(self) -> Seq<PathView> {
        all_paths(self.paths@)
    }

    /// The working tree of the first file.
    pub closed spec fn worktree_view(self) -> PathView {
        self.worktree@
    }
}

impl View for PendingHead {
    type V = StepView;

    open spec fn view(&self) -> StepView {
        StepView::Head {
            paths: self.paths_view(),
            worktree: self.worktree_view(),
        }
    }
}

impl PendingCurrent {
    /// The paths of the files that are resolved.
    pub closed spec fn paths_view(self) -> Seq<PathView> {
        all_paths(self.paths@)
    }

    /// The working tree of the first file.
    pub closed spec fn worktree_view(self) -> PathView {
        self.worktree@
    }

    /// The versions that are loaded.
    pub closed spec fn versions_view(self) -> Seq<VersionsView> {
        all_versions(self.versions@)
    }
}

impl View for PendingCurrent {
    type V = StepView;

    open spec fn view(&self) -> StepView {
        StepView::Current {
            paths: self.paths_view(),
            worktree: self.worktree_view(),
            versions: self.versions_view(),
        }
    }
}

impl PendingPrevious {
    /// The paths of the files that are resolved.
    pub closed spec fn paths_view(self) -> Seq<PathView> {
        all_paths(self.paths@)
    }

    /// The working tree of the first file.
    pub closed spec fn worktree_view(self) -> PathView {
        self.worktree@
    }

    /// The versions that are loaded.
    pub closed spec fn versions_view(self) -> Seq<VersionsView> {
        all_versions(self.versions@)
    }

    /// What the file in question holds in the working tree.
    pub closed spec fn current_view(self) -> Seq<u8> {
        self.current@
    }
}

impl View for PendingPrevious {
    type V = StepView;

    open spec fn view(&self) -> StepView {
        StepView::Previous {
            paths: self.paths_view(),
            worktree: self.worktree_view(),
            versions: self.versions_view(),
            current: self.current_view(),
        }
    }
}

impl View for LoadStep {
    type V = StepView;

    open spec fn view(&self) -> StepView {
        match self {
            LoadStep::Path(pending) => pending@,
            LoadStep::FirstWorktree(pending) => pending@,
            LoadStep::Worktree(pending) => pending@,
            LoadStep::Head(pending) => pending@,
            LoadStep::Current(pending) => pending@,
            LoadStep::Previous(pending) => pending@,
            LoadStep::Loaded(versions) => StepView::Loaded { versions: all_versions(versions@) },
            LoadStep::Failed(error) => StepView::Failed { error: error_view(*error) },
        }
    }
}

/// A copy of a path.
fn copy(path: &SystemPath) -> (result: SystemPath)
    ensures
        result@ == path@,
{
    let bytes = path.bytes.clone();
    assert(bytes@ =~= path.bytes@);
    SystemPath { syntax: path.syntax, bytes }
}

/// The step when some inputs are resolved.
fn resolve_next(inputs: Vec<SystemPath>, paths: Vec<SystemPath>) -> (step: LoadStep)
    ensures
        step@ == resolving(all_paths(inputs@), all_paths(paths@)),
{
    let n: usize = paths.len();
    if n < inputs.len() {
        if is_svg(&inputs[n]) {
            LoadStep::Path(PendingPath { inputs, paths })
        } else {
            LoadStep::Failed(LoadError::NotSvg { path: copy(&inputs[n]) })
        }
    } else if n == 0 {
        LoadStep::Failed(LoadError::NoPaths)
    } else if has_parent(&paths[0]) {
        LoadStep::FirstWorktree(PendingFirstWorktree { paths })
    } else {
        LoadStep::Failed(LoadError::NoParent)
    }
}

/// The step when some files are known to be in the working tree of the first.
fn compare_next(paths: Vec<SystemPath>, worktree: SystemPath, checked: usize) -> (step: LoadStep)
    ensures
        step@ == comparing(all_paths(paths@), worktree@, checked as nat),
{
    if checked < paths.len() {
        if has_parent(&paths[checked]) {
            LoadStep::Worktree(PendingWorktree { paths, worktree, checked })
        } else {
            LoadStep::Failed(LoadError::NoParent)
        }
    } else {
        LoadStep::Head(PendingHead { paths, worktree })
    }
}

/// The step when the versions of some files are loaded.
fn read_next(
    paths: Vec<SystemPath>,
    worktree: SystemPath,
    versions: Vec<SnapshotVersions>,
) -> (step: LoadStep)
    ensures
        step@ == reading(all_paths(paths@), worktree@, all_versions(versions@)),
{
    let n: usize = versions.len();
    if n < paths.len() {
        match strip_prefix(&paths[n], &worktree) {
            Some(relative) => LoadStep::Current(
                PendingCurrent { paths, worktree, versions, relative },
            ),
            None => LoadStep::Failed(
                LoadError::OutsideWorktree { path: copy(&paths[n]), worktree },
            ),
        }
    } else {
        LoadStep::Loaded(versions)
    }
}

/// The first step of loading the versions of the files at `inputs`.
pub fn load_versions(inputs: Vec<SystemPath>) -> (step: LoadStep)
    ensures
        step@ == resolving(all_paths(inputs@), Seq::empty()),
{
    let paths: Vec<SystemPath> = Vec::new();
    proof {
        assert(all_paths(paths@) =~= Seq::empty());
    }
    resolve_next(inputs, paths)
}

impl PendingPath {
    #[verifier::type_invariant]
    spec fn well_formed(self) -> bool {
        self.paths@.len() < self.inputs@.len() && is_svg_spec(self.inputs@[self.paths@.len() as int]@)
    }

    /// The index of the input in question.
    pub fn index(&self) -> (index: usize)
        ensures
            self@ matches StepView::Path { inputs, paths } && index == paths.len() && index
                < inputs.len(),
    {
        proof {
            use_type_invariant(self);
        }
        self.paths.len()
    }

    /// The step after the answer.
    pub fn answer(self, reply: PathReply<SystemPath>) -> (step: LoadStep)
        ensures
            self@ matches StepView::Path { inputs, paths } && step@ == after_path(
                inputs,
                paths,
                path_reply_view(reply),
            ),
    {
        proof {
            use_type_invariant(&self);
        }
        let PendingPath { inputs, paths } = self;
        let n: usize = paths.len();
        match reply {
            PathReply::Missing => LoadStep::Failed(LoadError::NotFound { path: copy(&inputs[n]) }),
            PathReply::Found { path, is_file } => {
                if is_file {
                    let mut paths = paths;
                    let ghost before = paths@;
                    paths.push(path);
                    proof {
                        assert(all_paths(paths@) =~= all_paths(before).push(path@));
                    }
                    resolve_next(inputs, paths)
                } else {
                    LoadStep::Failed(LoadError::NotAFile { path })
                }
            },
        }
    }
}

/// The working tree of the file at `path`, or why there is none.
fn find_worktree(path: &SystemPath, reply: WorktreeReply<SystemPath>) -> (worktree: Result<
    SystemPath,
    LoadError<SystemPath>,
>)
    requires
        has_parent_spec(path@),
    ensures
        match worktree {
            Ok(worktree) => worktree_of(path@, worktree_reply_view(reply)) == Ok::<
                PathView,
                LoadError<PathView>,
            >(worktree@),
            Err(error) => worktree_of(path@, worktree_reply_view(reply)) == Err::<
                PathView,
                LoadError<PathView>,
            >(error_view(error)),
        },
{
    match reply {
        WorktreeReply::At { worktree } => Ok(worktree),
        WorktreeReply::NoRepository => Err(LoadError::NoRepository { path: copy(path) }),
        WorktreeReply::Bare => Err(LoadError::NoWorktree),
        WorktreeReply::Unresolved { worktree } => Err(
            LoadError::UnresolvedWorktree { worktree, path: copy(path) },
        ),
    }
}

impl PendingFirstWorktree {
    #[verifier::type_invariant]
    spec fn well_formed(self) -> bool {
        self.paths@.len() > 0 && has_parent_spec(self.paths@[0]@)
    }

    /// The step after the answer.
    pub fn answer(self, reply: WorktreeReply<SystemPath>) -> (step: LoadStep)
        ensures
            self@ matches StepView::FirstWorktree { paths } && step@ == after_first_worktree(
                paths,
                worktree_reply_view(reply),
            ),
    {
        proof {
            use_type_invariant(&self);
        }
        let PendingFirstWorktree { paths } = self;
        match find_worktree(&paths[0], reply) {
            Ok(worktree) => compare_next(paths, worktree, 0),
            Err(error) => LoadStep::Failed(error),
        }
    }
}

impl PendingWorktree {
    #[verifier::type_invariant]
    spec fn well_formed(self) -> bool {
        self.checked < self.paths@.len() && has_parent_spec(self.paths@[self.checked as int]@)
    }

    /// The index of the file in question.
    pub fn index(&self) -> (index: usize)
        ensures
            self@ matches StepView::Worktree { paths, worktree, checked } && index == checked
                && index < paths.len(),
    {
        proof {
            use_type_invariant(self);
        }
        self.checked
    }

    /// The step after the answer.
    pub fn answer(self, reply: WorktreeReply<SystemPath>) -> (step: LoadStep)
        ensures
            self@ matches StepView::Worktree { paths, worktree, checked } && step@
                == after_worktree(paths, worktree, checked, worktree_reply_view(reply)),
    {
        proof {
            use_type_invariant(&self);
        }
        let PendingWorktree { paths, worktree: expected, checked } = self;
        let count: usize = paths.len();
        assert(checked < count);
        match find_worktree(&paths[checked], reply) {
            Ok(worktree) => {
                if same_path(&worktree, &expected) {
                    compare_next(paths, expected, checked + 1)
                } else {
                    LoadStep::Failed(
                        LoadError::OtherWorktree { path: copy(&paths[checked]), worktree, expected },
                    )
                }
            },
            Err(error) => LoadStep::Failed(error),
        }
    }
}

impl PendingHead {
    /// The step after the answer.
    pub fn answer(self, reply: HeadReply) -> (step: LoadStep)
        ensures
            self@ matches StepView::Head { paths, worktree } && step@ == after_head(
                paths,
                worktree,
                reply,
            ),
    {
        let PendingHead { paths, worktree } = self;
        match reply {
            HeadReply::Open => {
                let versions: Vec<SnapshotVersions> = Vec::new();
                proof {
                    assert(all_versions(versions@) =~= Seq::empty());
                }
                read_next(paths, worktree, versions)
            },
            HeadReply::NoCommit => LoadStep::Failed(LoadError::NoHead),
            HeadReply::NoTree => LoadStep::Failed(LoadError::NoTree),
        }
    }
}

impl PendingCurrent {
    #[verifier::type_invariant]
    spec fn well_formed(self) -> bool {
        &&& self.versions@.len() < self.paths@.len()
        &&& self.relative@ == relative_to(
            self.paths@[self.versions@.len() as int]@,
            self.worktree@,
        )
    }

    /// The index of the file in question.
    pub fn index(&self) -> (index: usize)
        ensures
            self@ matches StepView::Current { paths, worktree, versions } && index
                == versions.len() && index < paths.len(),
    {
        proof {
            use_type_invariant(self);
        }
        self.versions.len()
    }

    /// The step after the answer.
    pub fn answer(self, reply: CurrentReply<Vec<u8>>) -> (step: LoadStep)
        ensures
            self@ matches StepView::Current { paths, worktree, versions } && step@
                == after_current(paths, worktree, versions, current_reply_view(reply)),
    {
        proof {
            use_type_invariant(&self);
        }
        let PendingCurrent { paths, worktree, versions, relative } = self;
        match reply {
            CurrentReply::Contents { contents } => LoadStep::Previous(
                PendingPrevious { paths, worktree, versions, relative, current: contents },
            ),
            CurrentReply::Unreadable => {
                let n: usize = versions.len();
                LoadStep::Failed(LoadError::Unreadable { path: copy(&paths[n]) })
            },
        }
    }
}

impl PendingPrevious {
    #[verifier::type_invariant]
    spec fn well_formed(self) -> bool {
        &&& self.versions@.len() < self.paths@.len()
        &&& self.relative@ == relative_to(
            self.paths@[self.versions@.len() as int]@,
            self.worktree@,
        )
    }

    /// The path of the file in question, relative to the working tree.
    pub fn relative_path(&self) -> (relative: &SystemPath)
        ensures
            self@ matches StepView::Previous { paths, worktree, versions, current } && relative@
                == relative_to(paths[versions.len() as int], worktree),
    {
        proof {
            use_type_invariant(self);
        }
        &self.relative
    }

    /// The step after the answer.
    pub fn answer(self, reply: PreviousReply<Vec<u8>>) -> (step: LoadStep)
        ensures
            self@ matches StepView::Previous { paths, worktree, versions, current } && step@
                == after_previous(paths, worktree, versions, current, previous_reply_view(reply)),
    {
        proof {
            use_type_invariant(&self);
        }
        let PendingPrevious { paths, worktree, versions, relative, current } = self;
        let previous = match reply {
            PreviousReply::Contents { contents } => Some(contents),
            PreviousReply::Absent => None,
            PreviousReply::LookupFailed => {
                return LoadStep::Failed(LoadError::LookupFailed { relative });
            },
            PreviousReply::ObjectFailed => {
                return LoadStep::Failed(LoadError::ObjectFailed { relative });
            },
            PreviousReply::NotAFile => {
                return LoadStep::Failed(LoadError::NotAFileAtHead { relative });
            },
        };
        let mut versions = versions;
        let ghost before = versions@;
        let loaded = SnapshotVersions { repository_relative_path: relative, previous, current };
        versions.push(loaded);
        proof {
            assert(all_versions(versions@) =~= all_versions(before).push(loaded@));
        }
        read_next(paths, worktree, versions)
    }
}

/// What the file system and the repository would answer about each input.
pub struct World {
    pub paths: Seq<PathReply<PathView>>,
    pub worktrees: Seq<WorktreeReply<PathView>>,
    pub head: HeadReply,
    pub current: Seq<CurrentReply<Seq<u8>>>,
    pub previous: Seq<PreviousReply<Seq<u8>>>,
}

/// The step after the answer that `world` gives.
pub open spec fn next_step(step: StepView, world: World) -> StepView {
    match step {
        StepView::Path { inputs, paths } => after_path(
            inputs,
            paths,
            world.paths[paths.len() as int],
        ),
        StepView::FirstWorktree { paths } => after_first_worktree(paths, world.worktrees[0]),
        StepView::Worktree { paths, worktree, checked } => after_worktree(
            paths,
            worktree,
            checked,
            world.worktrees[checked as int],
        ),
        StepView::Head { paths, worktree } => after_head(paths, worktree, world.head),
        StepView::Current { paths, worktree, versions } => after_current(
            paths,
            worktree,
            versions,
            world.current[versions.len() as int],
        ),
        StepView::Previous { paths, worktree, versions, current } => after_previous(
            paths,
            worktree,
            versions,
            current,
            world.previous[versions.len() as int],
        ),
        StepView::Loaded { versions } => step,
        StepView::Failed { error } => step,
    }
}

/// The step after `n` answers that `world` gives.
pub open spec fn run(step: StepView, world: World, n: nat) -> StepView
    decreases n,
{
    if n == 0 {
        step
    } else {
        run(next_step(step, world), world, (n - 1) as nat)
    }
}

/// All values, or the first error.
pub open spec fn collected<T>(
    results: Seq<Result<T, LoadError<PathView>>>,
) -> Result<Seq<T>, LoadError<PathView>>
    decreases results.len(),
{
    if results.len() == 0 {
        Ok(Seq::empty())
    } else {
        match collected(results.drop_last()) {
            Err(error) => Err(error),
            Ok(values) => match results.last() {
                Err(error) => Err(error),
                Ok(value) => Ok(values.push(value)),
            },
        }
    }
}

/// What resolving each input comes to.
pub open spec fn resolutions(
    inputs: Seq<PathView>,
    world: World,
) -> Seq<Result<PathView, LoadError<PathView>>> {
    Seq::new(inputs.len(), |i: int| resolved(inputs[i], world.paths[i]))
}

/// What looking for each file in the working tree comes to.
pub open spec fn comparisons(
    paths: Seq<PathView>,
    worktree: PathView,
    world: World,
) -> Seq<Result<(), LoadError<PathView>>> {
    Seq::new(paths.len(), |i: int| in_worktree(paths[i], world.worktrees[i], worktree))
}

/// What loading each file comes to.
pub open spec fn loadings(
    paths: Seq<PathView>,
    worktree: PathView,
    world: World,
) -> Seq<Result<VersionsView, LoadError<PathView>>> {
    Seq::new(
        paths.len(),
        |i: int| versions_of(paths[i], worktree, world.current[i], world.previous[i]),
    )
}

/// What loading the versions of the files at `inputs` comes to: all files are
/// resolved, then all are looked for in the working tree of the first, and then,
/// if `HEAD` can be looked into, all are loaded; the first error ends it.
pub open spec fn load_outcome(
    inputs: Seq<PathView>,
    world: World,
) -> Result<Seq<VersionsView>, LoadError<PathView>> {
    match collected(resolutions(inputs, world)) {
        Err(error) => Err(error),
        Ok(paths) => if paths.len() == 0 {
            Err(LoadError::NoPaths)
        } else {
            match worktree_of(paths[0], world.worktrees[0]) {
                Err(error) => Err(error),
                Ok(worktree) => match collected(comparisons(paths, worktree, world)) {
                    Err(error) => Err(error),
                    Ok(_) => match world.head {
                        HeadReply::NoCommit => Err(LoadError::NoHead),
                        HeadReply::NoTree => Err(LoadError::NoTree),
                        HeadReply::Open => collected(loadings(paths, worktree, world)),
                    },
                },
            }
        },
    }
}

/// The last step, given what it comes to.
pub open spec fn final_step(outcome: Result<Seq<VersionsView>, LoadError<PathView>>) -> StepView {
    match outcome {
        Ok(versions) => StepView::Loaded { versions },
        Err(error) => StepView::Failed { error },
    }
}

/// An error among the first results is the error of all.
proof fn lemma_early_error<T>(results: Seq<Result<T, LoadError<PathView>>>, n: int)
    requires
        0 <= n <= results.len(),
        collected(results.take(n)) is Err,
    ensures
        collected(results) == collected(results.take(n)),
    decreases results.len(),
{
    if n < results.len() {
        assert(results.drop_last().take(n) =~= results.take(n));
        lemma_early_error(results.drop_last(), n);
    } else {
        assert(results.take(n) =~= results);
    }
}

/// How one more result is collected.
pub(crate) proof fn lemma_collect_next<T>(results: Seq<Result<T, LoadError<PathView>>>, n: int, values: Seq<T>)
    requires
        0 <= n < results.len(),
        collected(results.take(n)) == Ok::<Seq<T>, LoadError<PathView>>(values),
    ensures
        results[n] matches Ok(value) ==> collected(results.take(n + 1)) == Ok::<
            Seq<T>,
            LoadError<PathView>,
        >(values.push(value)),
        results[n] matches Err(error) ==> collected(results) == Err::<
            Seq<T>,
            LoadError<PathView>,
        >(error),
{
    let more = results.take(n + 1);
    assert(more.drop_last() =~= results.take(n));
    assert(more.last() == results[n]);
    if results[n] is Err {
        lemma_early_error(results, n + 1);
    }
}

/// There are as many values as results.
pub(crate) proof fn lemma_collected_len<T>(results: Seq<Result<T, LoadError<PathView>>>)
    ensures
        collected(results) matches Ok(values) ==> values.len() == results.len() && forall|i: int|
            0 <= i < results.len() ==> results[i] == Ok::<T, LoadError<PathView>>(
                #[trigger] values[i],
            ),
    decreases results.len(),
{
    if results.len() > 0 {
        lemma_collected_len(results.drop_last());
        if let Ok(values) = collected(results) {
            let before = collected(results.drop_last())->Ok_0;
            assert forall|i: int| 0 <= i < results.len() implies results[i] == Ok::<
                T,
                LoadError<PathView>,
            >(#[trigger] values[i]) by {
                if i < results.len() - 1 {
                    assert(values[i] == before[i]);
                    assert(results.drop_last()[i] == results[i]);
                }
            }
        }
    }
}

/// The last step stays.
proof fn lemma_run_ends(
    outcome: Result<Seq<VersionsView>, LoadError<PathView>>,
    world: World,
    n: nat,
)
    ensures
        run(final_step(outcome), world, n) == final_step(outcome),
    decreases n,
{
    if n > 0 {
        lemma_run_ends(outcome, world, (n - 1) as nat);
    }
}

/// Running from the loading of the remaining files on.
proof fn lemma_run_reading(
    paths: Seq<PathView>,
    worktree: PathView,
    versions: Seq<VersionsView>,
    world: World,
    n: nat,
)
    requires
        versions.len() <= paths.len(),
        collected(loadings(paths, worktree, world).take(versions.len() as int)) == Ok::<
            Seq<VersionsView>,
            LoadError<PathView>,
        >(versions),
        n >= 2 * (paths.len() - versions.len()),
    ensures
        run(reading(paths, worktree, versions), world, n) == final_step(
            collected(loadings(paths, worktree, world)),
        ),
    decreases paths.len() - versions.len(),
{
    let results = loadings(paths, worktree, world);
    let k = versions.len() as int;
    let outcome = collected(results);
    if k < paths.len() {
        lemma_collect_next(results, k, versions);
        let path = paths[k];
        if !is_under(path, worktree) {
            lemma_run_ends(outcome, world, n);
        } else {
            let asked = reading(paths, worktree, versions);
            let second = next_step(asked, world);
            let third = next_step(second, world);
            assert(run(asked, world, n) == run(second, world, (n - 1) as nat));
            assert(run(second, world, (n - 1) as nat) == run(third, world, (n - 2) as nat));
            if results[k] is Err {
                lemma_run_ends(outcome, world, (n - 1) as nat);
                lemma_run_ends(outcome, world, (n - 2) as nat);
            } else {
                lemma_run_reading(
                    paths,
                    worktree,
                    versions.push(results[k]->Ok_0),
                    world,
                    (n - 2) as nat,
                );
            }
        }
    } else {
        assert(results.take(k) =~= results);
        lemma_run_ends(outcome, world, n);
    }
}

/// Running from the comparison of the remaining files on.
proof fn lemma_run_comparing(
    paths: Seq<PathView>,
    worktree: PathView,
    checked: nat,
    done: Seq<()>,
    world: World,
    n: nat,
)
    requires
        checked <= paths.len(),
        collected(comparisons(paths, worktree, world).take(checked as int)) == Ok::<
            Seq<()>,
            LoadError<PathView>,
        >(done),
        n >= paths.len() - checked + 1 + 2 * paths.len(),
    ensures
        run(comparing(paths, worktree, checked), world, n) == final_step(
            match collected(comparisons(paths, worktree, world)) {
                Err(error) => Err(error),
                Ok(_) => match world.head {
                    HeadReply::NoCommit => Err(LoadError::NoHead),
                    HeadReply::NoTree => Err(LoadError::NoTree),
                    HeadReply::Open => collected(loadings(paths, worktree, world)),
                },
            },
        ),
    decreases paths.len() - checked,
{
    let results = comparisons(paths, worktree, world);
    let k = checked as int;
    let asked = comparing(paths, worktree, checked);
    if k < paths.len() {
        lemma_collect_next(results, k, done);
        if !has_parent_spec(paths[k]) {
            lemma_run_ends(Err(LoadError::NoParent), world, n);
        } else {
            let second = next_step(asked, world);
            assert(run(asked, world, n) == run(second, world, (n - 1) as nat));
            match results[k] {
                Err(error) => {
                    lemma_run_ends(Err(error), world, (n - 1) as nat);
                },
                Ok(value) => {
                    lemma_run_comparing(
                        paths,
                        worktree,
                        checked + 1,
                        done.push(value),
                        world,
                        (n - 1) as nat,
                    );
                },
            }
        }
    } else {
        assert(results.take(k) =~= results);
        let second = next_step(asked, world);
        assert(run(asked, world, n) == run(second, world, (n - 1) as nat));
        match world.head {
            HeadReply::NoCommit => {
                lemma_run_ends(Err(LoadError::NoHead), world, (n - 1) as nat);
            },
            HeadReply::NoTree => {
                lemma_run_ends(Err(LoadError::NoTree), world, (n - 1) as nat);
            },
            HeadReply::Open => {
                let none = Seq::<VersionsView>::empty();
                assert(loadings(paths, worktree, world).take(0) =~= Seq::empty());
                lemma_run_reading(paths, worktree, none, world, (n - 1) as nat);
            },
        }
    }
}

/// Running from the resolution of the remaining inputs on.
proof fn lemma_run_resolving(
    inputs: Seq<PathView>,
    paths: Seq<PathView>,
    world: World,
    n: nat,
)
    requires
        paths.len() <= inputs.len(),
        collected(resolutions(inputs, world).take(paths.len() as int)) == Ok::<
            Seq<PathView>,
            LoadError<PathView>,
        >(paths),
        n >= inputs.len() - paths.len() + 2 + 3 * inputs.len(),
    ensures
        run(resolving(inputs, paths), world, n) == final_step(load_outcome(inputs, world)),
    decreases inputs.len() - paths.len(),
{
    let results = resolutions(inputs, world);
    let k = paths.len() as int;
    let asked = resolving(inputs, paths);
    if k < inputs.len() {
        lemma_collect_next(results, k, paths);
        if !is_svg_spec(inputs[k]) {
            lemma_run_ends(load_outcome(inputs, world), world, n);
        } else {
            let second = next_step(asked, world);
            assert(run(asked, world, n) == run(second, world, (n - 1) as nat));
            match results[k] {
                Err(error) => {
                    lemma_run_ends(Err(error), world, (n - 1) as nat);
                },
                Ok(path) => {
                    lemma_run_resolving(inputs, paths.push(path), world, (n - 1) as nat);
                },
            }
        }
    } else {
        assert(results.take(k) =~= results);
        if k == 0 || !has_parent_spec(paths[0]) {
            lemma_run_ends(load_outcome(inputs, world), world, n);
        } else {
            let second = next_step(asked, world);
            assert(run(asked, world, n) == run(second, world, (n - 1) as nat));
            match worktree_of(paths[0], world.worktrees[0]) {
                Err(error) => {
                    lemma_run_ends(Err(error), world, (n - 1) as nat);
                },
                Ok(worktree) => {
                    let none = Seq::<()>::empty();
                    assert(comparisons(paths, worktree, world).take(0) =~= Seq::empty());
                    lemma_run_comparing(paths, worktree, 0, none, world, (n - 1) as nat);
                },
            }
        }
    }
}

/// Answering the questions one by one comes to [`load_outcome`], after at most
/// four answers for each input and two more.
pub proof fn lemma_load_comes_to_outcome(inputs: Seq<PathView>, world: World, n: nat)
    requires
        n >= 4 * inputs.len() + 2,
    ensures
        run(resolving(inputs, Seq::empty()), world, n) == final_step(load_outcome(inputs, world)),
{
    assert(resolutions(inputs, world).take(0) =~= Seq::empty());
    lemma_run_resolving(inputs, Seq::empty(), world, n);
}

/// What is loaded is what was asked for: there are two versions of each input, in
/// the order of the inputs; each file is in the working tree of the first; and the
/// path of each is that of the file relative to the working tree, which, placed
/// below it, is the path of the file.
pub proof fn lemma_loaded_in_order(inputs: Seq<PathView>, world: World, i: int)
    requires
        load_outcome(inputs, world) is Ok,
        0 <= i < inputs.len(),
    ensures
        ({
            let versions = load_outcome(inputs, world)->Ok_0;
            let worktree = world.worktrees[0]->At_worktree;
            let path = world.paths[i]->path;
            &&& versions.len() == inputs.len()
            &&& is_svg_spec(inputs[i])
            &&& world.paths[i] == PathReply::Found { path, is_file: true }
            &&& world.worktrees[0] == WorktreeReply::At { worktree }
            &&& world.worktrees[i] is At
            &&& components(world.worktrees[i]->At_worktree) == components(worktree)
            &&& is_under(path, worktree)
            &&& versions[i].path == relative_to(path, worktree)
            &&& reads_alike(path, worktree) ==> components(worktree) + components(
                versions[i].path,
            ) == components(path)
            &&& world.current[i] == CurrentReply::Contents { contents: versions[i].current }
            &&& match versions[i].previous {
                Some(previous) => world.previous[i] == PreviousReply::Contents {
                    contents: previous,
                },
                None => world.previous[i] is Absent,
            }
        }),
{
    lemma_collected_len(resolutions(inputs, world));
    let paths = collected(resolutions(inputs, world))->Ok_0;
    assert(resolutions(inputs, world)[i] == Ok::<PathView, LoadError<PathView>>(paths[i]));
    let worktree = worktree_of(paths[0], world.worktrees[0])->Ok_0;
    lemma_collected_len(comparisons(paths, worktree, world));
    let compared = collected(comparisons(paths, worktree, world))->Ok_0;
    assert(comparisons(paths, worktree, world)[i] == Ok::<(), LoadError<PathView>>(compared[i]));
    lemma_collected_len(loadings(paths, worktree, world));
    let versions = collected(loadings(paths, worktree, world))->Ok_0;
    assert(loadings(paths, worktree, world)[i] == Ok::<VersionsView, LoadError<PathView>>(
        versions[i],
    ));
    let path = paths[i];
    if reads_alike(path, worktree) {
        lemma_relative_rejoins(path, worktree);
    }
}

} // verus!
