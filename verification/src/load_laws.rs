//! When versions are loaded, and why they are not.

use vstd::prelude::*;

use crate::load::{
    collected, comparisons, current_reply_view, lemma_collect_next, lemma_collected_len,
    load_outcome, loadings, path_reply_view, previous_reply_view, resolutions,
    worktree_reply_view, CurrentReply, HeadReply, PathReply, PreviousReply, WorktreeReply,
    World,
};
use crate::load_error::LoadError;
use crate::page::VersionsView;
use crate::path::{
    all_paths, components, has_parent_spec, is_svg_spec, is_under, relative_to, PathView,
    SystemPath,
};

verus! {

/// Whether an input names an SVG file, and there is such a file.
pub open spec fn is_found(inputs: Seq<PathView>, world: World, i: int) -> bool {
    is_svg_spec(inputs[i]) && world.paths[i] is Found && world.paths[i]->is_file
}

/// Whether the first `n` inputs name SVG files that are there.
pub open spec fn are_found(inputs: Seq<PathView>, world: World, n: int) -> bool {
    forall|i: int| 0 <= i < n ==> #[trigger] is_found(inputs, world, i)
}

/// The path of a file that was found.
pub open spec fn path_at(world: World, i: int) -> PathView {
    world.paths[i]->path
}

/// The working tree that was found for the first file.
pub open spec fn shared_worktree(world: World) -> PathView {
    world.worktrees[0]->At_worktree
}

/// Whether a file is in the working tree that was found for the first one.
pub open spec fn is_in_worktree(world: World, i: int) -> bool {
    &&& has_parent_spec(path_at(world, i))
    &&& world.worktrees[i] is At
    &&& components(world.worktrees[i]->At_worktree) == components(shared_worktree(world))
}

/// Whether the first `n` files are in the working tree of the first one.
pub open spec fn are_in_worktree(world: World, n: int) -> bool {
    forall|i: int| 0 <= i < n ==> #[trigger] is_in_worktree(world, i)
}

/// Whether a file lies below the working tree, can be read, and is at `HEAD` or is
/// known not to be.
pub open spec fn is_readable(world: World, i: int) -> bool {
    &&& is_under(path_at(world, i), shared_worktree(world))
    &&& world.current[i] is Contents
    &&& world.previous[i] is Contents || world.previous[i] is Absent
}

/// Whether the first `n` files can be read.
pub open spec fn are_readable(world: World, n: int) -> bool {
    forall|i: int| 0 <= i < n ==> #[trigger] is_readable(world, i)
}

/// Where the first `n` results are values, they are collected.
proof fn lemma_collected_values<T>(results: Seq<Result<T, LoadError<PathView>>>, n: int)
    requires
        0 <= n <= results.len(),
        forall|i: int| 0 <= i < n ==> (#[trigger] results[i]) is Ok,
    ensures
        collected(results.take(n)) is Ok,
        collected(results.take(n))->Ok_0.len() == n,
        forall|i: int|
            0 <= i < n ==> results[i] == Ok::<T, LoadError<PathView>>(
                #[trigger] collected(results.take(n))->Ok_0[i],
            ),
    decreases n,
{
    if n > 0 {
        lemma_collected_values(results, n - 1);
        let values = collected(results.take(n - 1))->Ok_0;
        assert(results[n - 1] is Ok);
        lemma_collect_next(results, n - 1, values);
        assert(collected(results.take(n))->Ok_0 == values.push(results[n - 1]->Ok_0));
    } else {
        assert(results.take(0) =~= Seq::empty());
    }
}

/// Where all results are values, they are collected.
proof fn lemma_all_values<T>(results: Seq<Result<T, LoadError<PathView>>>)
    requires
        forall|i: int| 0 <= i < results.len() ==> (#[trigger] results[i]) is Ok,
    ensures
        collected(results) is Ok,
        collected(results)->Ok_0.len() == results.len(),
        forall|i: int|
            0 <= i < results.len() ==> results[i] == Ok::<T, LoadError<PathView>>(
                #[trigger] collected(results)->Ok_0[i],
            ),
{
    lemma_collected_values(results, results.len() as int);
    assert(results.take(results.len() as int) =~= results);
}

/// The first error is what results come to.
proof fn lemma_first_error<T>(
    results: Seq<Result<T, LoadError<PathView>>>,
    k: int,
    error: LoadError<PathView>,
)
    requires
        0 <= k < results.len(),
        forall|i: int| 0 <= i < k ==> (#[trigger] results[i]) is Ok,
        results[k] == Err::<T, LoadError<PathView>>(error),
    ensures
        collected(results) == Err::<Seq<T>, LoadError<PathView>>(error),
{
    lemma_collected_values(results, k);
    lemma_collect_next(results, k, collected(results.take(k))->Ok_0);
}

/// The paths that are resolved where all files are found.
proof fn lemma_resolved_paths(inputs: Seq<PathView>, world: World)
    requires
        are_found(inputs, world, inputs.len() as int),
    ensures
        collected(resolutions(inputs, world)) is Ok,
        collected(resolutions(inputs, world))->Ok_0.len() == inputs.len(),
        forall|i: int|
            0 <= i < inputs.len() ==> #[trigger] collected(resolutions(inputs, world))->Ok_0[i]
                == path_at(world, i),
{
    let results = resolutions(inputs, world);
    assert forall|i: int| 0 <= i < results.len() implies (#[trigger] results[i]) is Ok
        && results[i]->Ok_0 == path_at(world, i) by {
        assert(is_found(inputs, world, i));
    }
    lemma_all_values(results);
    let paths = collected(results)->Ok_0;
    assert forall|i: int| 0 <= i < inputs.len() implies #[trigger] paths[i] == path_at(
        world,
        i,
    ) by {
        assert(results[i] == Ok::<PathView, LoadError<PathView>>(paths[i]));
    }
}

/// The comparisons where the first `n` files are in the working tree of the first.
proof fn lemma_compared_paths(inputs: Seq<PathView>, world: World, n: int)
    requires
        0 <= n <= inputs.len(),
        are_found(inputs, world, inputs.len() as int),
        are_in_worktree(world, n),
    ensures
        ({
            let paths = collected(resolutions(inputs, world))->Ok_0;
            let results = comparisons(paths, shared_worktree(world), world);
            &&& results.len() == inputs.len()
            &&& forall|i: int| 0 <= i < n ==> (#[trigger] results[i]) is Ok
        }),
{
    lemma_resolved_paths(inputs, world);
    let paths = collected(resolutions(inputs, world))->Ok_0;
    let results = comparisons(paths, shared_worktree(world), world);
    assert forall|i: int| 0 <= i < n implies (#[trigger] results[i]) is Ok by {
        assert(is_in_worktree(world, i));
        assert(paths[i] == path_at(world, i));
    }
}

/// The versions of the first `n` files where they can be read.
proof fn lemma_read_paths(inputs: Seq<PathView>, world: World, n: int)
    requires
        0 <= n <= inputs.len(),
        are_found(inputs, world, inputs.len() as int),
        are_readable(world, n),
    ensures
        ({
            let paths = collected(resolutions(inputs, world))->Ok_0;
            let results = loadings(paths, shared_worktree(world), world);
            &&& results.len() == inputs.len()
            &&& forall|i: int| 0 <= i < n ==> (#[trigger] results[i]) is Ok
        }),
{
    lemma_resolved_paths(inputs, world);
    let paths = collected(resolutions(inputs, world))->Ok_0;
    let results = loadings(paths, shared_worktree(world), world);
    assert forall|i: int| 0 <= i < n implies (#[trigger] results[i]) is Ok by {
        assert(is_readable(world, i));
        assert(paths[i] == path_at(world, i));
    }
}

/// Loading succeeds whenever it can: where every input names an SVG file that is
/// there, all files are in the working tree of the first and can be read, and `HEAD`
/// can be looked into.
pub proof fn lemma_loading_succeeds(inputs: Seq<PathView>, world: World)
    requires
        inputs.len() > 0,
        are_found(inputs, world, inputs.len() as int),
        are_in_worktree(world, inputs.len() as int),
        world.head == HeadReply::Open,
        are_readable(world, inputs.len() as int),
    ensures
        load_outcome(inputs, world) is Ok,
        load_outcome(inputs, world)->Ok_0.len() == inputs.len(),
        forall|i: int|
            0 <= i < inputs.len() ==> {
                let versions = #[trigger] load_outcome(inputs, world)->Ok_0[i];
                &&& versions.path == relative_to(path_at(world, i), shared_worktree(world))
                &&& versions.current == world.current[i]->contents
                &&& versions.previous == (if world.previous[i] is Absent {
                    None
                } else {
                    Some(world.previous[i]->contents)
                })
            },
{
    lemma_resolved_paths(inputs, world);
    let paths = collected(resolutions(inputs, world))->Ok_0;
    let worktree = shared_worktree(world);
    assert(is_in_worktree(world, 0));
    assert(paths[0] == path_at(world, 0));
    lemma_compared_paths(inputs, world, inputs.len() as int);
    lemma_all_values(comparisons(paths, worktree, world));
    lemma_read_paths(inputs, world, inputs.len() as int);
    lemma_all_values(loadings(paths, worktree, world));
    let versions = load_outcome(inputs, world)->Ok_0;
    assert forall|i: int| 0 <= i < inputs.len() implies ({
        let versions = #[trigger] versions[i];
        &&& versions.path == relative_to(path_at(world, i), worktree)
        &&& versions.current == world.current[i]->contents
        &&& versions.previous == (if world.previous[i] is Absent {
            None
        } else {
            Some(world.previous[i]->contents)
        })
    }) by {
        assert(is_readable(world, i));
        assert(paths[i] == path_at(world, i));
        assert(loadings(paths, worktree, world)[i] == Ok::<VersionsView, LoadError<PathView>>(
            versions[i],
        ));
    }
}

/// Nothing else succeeds.
pub proof fn lemma_only_this_succeeds(inputs: Seq<PathView>, world: World)
    requires
        load_outcome(inputs, world) is Ok,
    ensures
        inputs.len() > 0,
        are_found(inputs, world, inputs.len() as int),
        are_in_worktree(world, inputs.len() as int),
        world.head == HeadReply::Open,
        are_readable(world, inputs.len() as int),
{
    let found = resolutions(inputs, world);
    lemma_collected_len(found);
    let paths = collected(found)->Ok_0;
    assert forall|i: int| 0 <= i < inputs.len() implies #[trigger] is_found(inputs, world, i) by {
        assert(found[i] == Ok::<PathView, LoadError<PathView>>(paths[i]));
    }
    lemma_resolved_paths(inputs, world);
    let worktree = shared_worktree(world);
    assert(paths[0] == path_at(world, 0));
    let compared = comparisons(paths, worktree, world);
    lemma_collected_len(compared);
    assert forall|i: int| 0 <= i < inputs.len() implies #[trigger] is_in_worktree(world, i) by {
        assert(paths[i] == path_at(world, i));
        assert(compared[i] == Ok::<(), LoadError<PathView>>(collected(compared)->Ok_0[i]));
    }
    let read = loadings(paths, worktree, world);
    lemma_collected_len(read);
    assert forall|i: int| 0 <= i < inputs.len() implies #[trigger] is_readable(world, i) by {
        assert(paths[i] == path_at(world, i));
        assert(read[i] == Ok::<VersionsView, LoadError<PathView>>(collected(read)->Ok_0[i]));
    }
}

/// Whether loading fails with this error.
pub open spec fn fails_with(
    inputs: Seq<PathView>,
    world: World,
    error: LoadError<PathView>,
) -> bool {
    load_outcome(inputs, world) == Err::<Seq<VersionsView>, LoadError<PathView>>(error)
}

/// Without inputs there is nothing to load.
pub proof fn lemma_no_inputs_fail(world: World)
    ensures
        fails_with(Seq::empty(), world, LoadError::NoPaths),
{
    let none = Seq::<PathView>::empty();
    lemma_all_values(resolutions(none, world));
}

/// The first input that names no SVG file, or none that is there, ends the loading,
/// whatever else is wrong.
pub proof fn lemma_first_bad_input_fails(inputs: Seq<PathView>, world: World, k: int)
    requires
        0 <= k < inputs.len(),
        are_found(inputs, world, k),
        !is_found(inputs, world, k),
    ensures
        !is_svg_spec(inputs[k]) ==> fails_with(
            inputs,
            world,
            LoadError::NotSvg { path: inputs[k] },
        ),
        is_svg_spec(inputs[k]) && world.paths[k] is Missing ==> fails_with(
            inputs,
            world,
            LoadError::NotFound { path: inputs[k] },
        ),
        is_svg_spec(inputs[k]) && world.paths[k] is Found ==> fails_with(
            inputs,
            world,
            LoadError::NotAFile { path: path_at(world, k) },
        ),
{
    let results = resolutions(inputs, world);
    assert forall|i: int| 0 <= i < k implies (#[trigger] results[i]) is Ok by {
        assert(is_found(inputs, world, i));
    }
    let error = if !is_svg_spec(inputs[k]) {
        LoadError::NotSvg { path: inputs[k] }
    } else if world.paths[k] is Missing {
        LoadError::NotFound { path: inputs[k] }
    } else {
        LoadError::NotAFile { path: path_at(world, k) }
    };
    lemma_first_error(results, k, error);
}

/// Without a working tree of the first file, loading fails.
pub proof fn lemma_no_worktree_fails(inputs: Seq<PathView>, world: World)
    requires
        inputs.len() > 0,
        are_found(inputs, world, inputs.len() as int),
    ensures
        ({
            let path = path_at(world, 0);
            &&& !has_parent_spec(path) ==> fails_with(inputs, world, LoadError::NoParent)
            &&& has_parent_spec(path) && world.worktrees[0] is NoRepository ==> fails_with(
                inputs,
                world,
                LoadError::NoRepository { path },
            )
            &&& has_parent_spec(path) && world.worktrees[0] is Bare ==> fails_with(
                inputs,
                world,
                LoadError::NoWorktree,
            )
            &&& has_parent_spec(path) && world.worktrees[0] is Unresolved ==> fails_with(
                inputs,
                world,
                LoadError::UnresolvedWorktree {
                    worktree: world.worktrees[0]->Unresolved_worktree,
                    path,
                },
            )
        }),
{
    lemma_resolved_paths(inputs, world);
    assert(collected(resolutions(inputs, world))->Ok_0[0] == path_at(world, 0));
}

/// The first file that is not in the working tree of the first one ends the loading.
pub proof fn lemma_other_worktree_fails(inputs: Seq<PathView>, world: World, k: int)
    requires
        0 < k < inputs.len(),
        are_found(inputs, world, inputs.len() as int),
        are_in_worktree(world, k),
        !is_in_worktree(world, k),
    ensures
        ({
            let path = path_at(world, k);
            &&& !has_parent_spec(path) ==> fails_with(inputs, world, LoadError::NoParent)
            &&& has_parent_spec(path) && world.worktrees[k] is NoRepository ==> fails_with(
                inputs,
                world,
                LoadError::NoRepository { path },
            )
            &&& has_parent_spec(path) && world.worktrees[k] is Bare ==> fails_with(
                inputs,
                world,
                LoadError::NoWorktree,
            )
            &&& has_parent_spec(path) && world.worktrees[k] is Unresolved ==> fails_with(
                inputs,
                world,
                LoadError::UnresolvedWorktree {
                    worktree: world.worktrees[k]->Unresolved_worktree,
                    path,
                },
            )
            &&& has_parent_spec(path) && world.worktrees[k] is At ==> fails_with(
                inputs,
                world,
                LoadError::OtherWorktree {
                    path,
                    worktree: world.worktrees[k]->At_worktree,
                    expected: shared_worktree(world),
                },
            )
        }),
{
    lemma_compared_paths(inputs, world, k);
    lemma_resolved_paths(inputs, world);
    let paths = collected(resolutions(inputs, world))->Ok_0;
    let results = comparisons(paths, shared_worktree(world), world);
    assert(is_in_worktree(world, 0));
    assert(paths[0] == path_at(world, 0));
    assert(paths[k] == path_at(world, k));
    assert(results[k] is Err);
    lemma_first_error(results, k, results[k]->Err_0);
}

/// Where `HEAD` cannot be looked into, loading fails.
pub proof fn lemma_no_head_fails(inputs: Seq<PathView>, world: World)
    requires
        inputs.len() > 0,
        are_found(inputs, world, inputs.len() as int),
        are_in_worktree(world, inputs.len() as int),
    ensures
        world.head == HeadReply::NoCommit ==> fails_with(inputs, world, LoadError::NoHead),
        world.head == HeadReply::NoTree ==> fails_with(inputs, world, LoadError::NoTree),
{
    lemma_compared_paths(inputs, world, inputs.len() as int);
    lemma_resolved_paths(inputs, world);
    let paths = collected(resolutions(inputs, world))->Ok_0;
    assert(is_in_worktree(world, 0));
    assert(paths[0] == path_at(world, 0));
    lemma_all_values(comparisons(paths, shared_worktree(world), world));
}

/// The first file that cannot be read, or looked up at `HEAD`, ends the loading.
pub proof fn lemma_unreadable_file_fails(inputs: Seq<PathView>, world: World, k: int)
    requires
        0 <= k < inputs.len(),
        are_found(inputs, world, inputs.len() as int),
        are_in_worktree(world, inputs.len() as int),
        world.head == HeadReply::Open,
        are_readable(world, k),
        !is_readable(world, k),
    ensures
        ({
            let path = path_at(world, k);
            let worktree = shared_worktree(world);
            let relative = relative_to(path, worktree);
            if !is_under(path, worktree) {
                fails_with(inputs, world, LoadError::OutsideWorktree { path, worktree })
            } else if world.current[k] is Unreadable {
                fails_with(inputs, world, LoadError::Unreadable { path })
            } else {
                &&& world.previous[k] is LookupFailed ==> fails_with(
                    inputs,
                    world,
                    LoadError::LookupFailed { relative },
                )
                &&& world.previous[k] is ObjectFailed ==> fails_with(
                    inputs,
                    world,
                    LoadError::ObjectFailed { relative },
                )
                &&& world.previous[k] is NotAFile ==> fails_with(
                    inputs,
                    world,
                    LoadError::NotAFileAtHead { relative },
                )
            }
        }),
{
    lemma_compared_paths(inputs, world, inputs.len() as int);
    lemma_resolved_paths(inputs, world);
    lemma_read_paths(inputs, world, k);
    let paths = collected(resolutions(inputs, world))->Ok_0;
    assert(is_in_worktree(world, 0));
    assert(paths[0] == path_at(world, 0));
    assert(paths[k] == path_at(world, k));
    lemma_all_values(comparisons(paths, shared_worktree(world), world));
    let results = loadings(paths, shared_worktree(world), world);
    assert(results[k] is Err);
    lemma_first_error(results, k, results[k]->Err_0);
}

/// The answers are seen as they are given: with the same paths, the same contents and
/// the same findings.
pub proof fn lemma_replies_are_seen(path: SystemPath, is_file: bool, contents: Vec<u8>)
    ensures
        path_reply_view(PathReply::Found { path, is_file }) == (PathReply::Found {
            path: PathView { syntax: path.syntax, bytes: path.bytes@ },
            is_file,
        }),
        path_reply_view(PathReply::Missing) is Missing,
        worktree_reply_view(WorktreeReply::At { worktree: path }) == (WorktreeReply::At {
            worktree: PathView { syntax: path.syntax, bytes: path.bytes@ },
        }),
        worktree_reply_view(WorktreeReply::Unresolved { worktree: path }) == (
        WorktreeReply::Unresolved {
            worktree: PathView { syntax: path.syntax, bytes: path.bytes@ },
        }),
        worktree_reply_view(WorktreeReply::NoRepository) is NoRepository,
        worktree_reply_view(WorktreeReply::Bare) is Bare,
        current_reply_view(CurrentReply::Contents { contents }) == (CurrentReply::Contents {
            contents: contents@,
        }),
        current_reply_view(CurrentReply::Unreadable) is Unreadable,
        previous_reply_view(PreviousReply::Contents { contents }) == (PreviousReply::Contents {
            contents: contents@,
        }),
        previous_reply_view(PreviousReply::Absent) is Absent,
        previous_reply_view(PreviousReply::LookupFailed) is LookupFailed,
        previous_reply_view(PreviousReply::ObjectFailed) is ObjectFailed,
        previous_reply_view(PreviousReply::NotAFile) is NotAFile,
{
}

/// The inputs are seen as they are given, each in its place.
pub proof fn lemma_inputs_are_seen(paths: Seq<SystemPath>, i: int)
    requires
        0 <= i < paths.len(),
    ensures
        all_paths(paths).len() == paths.len(),
        all_paths(paths)[i].syntax == paths[i].syntax,
        all_paths(paths)[i].bytes == paths[i].bytes@,
{
}

} // verus!
