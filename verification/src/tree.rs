//! A model of the file system that a walk meets, and the run of a walk
//! against it.

use vstd::prelude::*;
use crate::permissions::Permissions;
use crate::repository::directory_level;
use crate::walk::{initial, next, resume, Event, Failure, IoOperation, Request, WalkState};

verus! {

/// How a path answers when a walk asks to list it.
pub enum Response {
    /// It is a directory and can be read.
    Readable,
    /// It is a directory that cannot be read.
    Unreadable,
    /// It is not a directory, or is one no longer.
    NotADirectory,
}

/// A directory with the directories beneath it, in listing order.
pub struct DirTree {
    pub path: Seq<char>,
    pub response: Response,
    pub subdirs: Seq<DirTree>,
}

/// The number of directories in a tree.
pub open spec fn tree_size(tree: DirTree) -> nat
    decreases tree,
{
    1 + forest_size(tree.subdirs)
}

/// The number of directories in a sequence of trees.
pub open spec fn forest_size(forest: Seq<DirTree>) -> nat
    decreases forest,
{
    if forest.len() == 0 {
        0
    } else {
        forest_size(forest.drop_last()) + tree_size(forest.last())
    }
}

/// The paths of the roots of a sequence of trees.
pub open spec fn root_paths(forest: Seq<DirTree>) -> Seq<Seq<char>> {
    Seq::new(forest.len(), |i: int| forest[i].path)
}

/// What a walk meets: whether the root exists, whether it can be created,
/// which directories take new permissions, and the trees that wait to be
/// visited, the last of them next.
pub struct World {
    pub root_exists: bool,
    pub root_creatable: bool,
    pub accepts: spec_fn(Seq<char>) -> bool,
    pub waiting: Seq<DirTree>,
}

/// The size of the concatenation of two sequences of trees.
pub proof fn lemma_forest_size_concat(front: Seq<DirTree>, back: Seq<DirTree>)
    ensures
        forest_size(front + back) == forest_size(front) + forest_size(back),
    decreases back.len(),
{
    if back.len() == 0 {
        assert(front + back =~= front);
    } else {
        assert((front + back).drop_last() =~= front + back.drop_last());
        assert((front + back).last() == back.last());
        lemma_forest_size_concat(front, back.drop_last());
    }
}

/// The event with which the world answers a request, and the world after
/// it. A listing is answered by the tree that is due, and only for its own
/// path; a readable directory puts its subdirectories in the place it
/// leaves. A finished walk gets no answer.
pub open spec fn reply(request: Request, world: World) -> Option<(Event, World)> {
    match request {
        Request::ProbeRoot(_) => Some(
            (
                if world.root_exists {
                    Event::RootFound
                } else {
                    Event::RootMissing
                },
                world,
            ),
        ),
        Request::CreateRoot(_) => Some(
            (
                if world.root_creatable {
                    Event::RootCreated
                } else {
                    Event::RootCreationFailed
                },
                world,
            ),
        ),
        Request::ListDirectory(path) => if world.waiting.len() > 0 && world.waiting.last().path
            == path {
            let due = world.waiting.last();
            let rest = world.waiting.drop_last();
            match due.response {
                Response::Readable => Some(
                    (
                        Event::Subdirectories(root_paths(due.subdirs)),
                        World { waiting: rest + due.subdirs, ..world },
                    ),
                ),
                Response::Unreadable => Some((Event::ReadFailed, World { waiting: rest, ..world })),
                Response::NotADirectory => Some(
                    (Event::NotADirectory, World { waiting: rest, ..world }),
                ),
            }
        } else {
            None
        },
        Request::ApplyPermissions(path, _) => Some(
            (
                if (world.accepts)(path) {
                    Event::PermissionsApplied
                } else {
                    Event::PermissionsRefused
                },
                world,
            ),
        ),
        Request::Finish(_) => None,
    }
}

/// How many requests can follow a request before a listing or the end.
pub open spec fn rank(request: Request) -> nat {
    match request {
        Request::ProbeRoot(_) => 3,
        Request::CreateRoot(_) => 2,
        Request::ApplyPermissions(_, _) => 1,
        Request::ListDirectory(_) => 0,
        Request::Finish(_) => 0,
    }
}

/// The requests that a walk makes from `state` on, the outstanding one
/// first, when the world answers each of them.
pub open spec fn run(overrides: Map<Seq<char>, Permissions>, state: WalkState, world: World) -> Seq<
    Request,
>
    decreases forest_size(world.waiting), rank(state.request),
    via run_terminates
{
    match reply(state.request, world) {
        None => seq![state.request],
        Some((event, after)) => seq![state.request] + run(
            overrides,
            next(overrides, state, event),
            after,
        ),
    }
}

#[via_fn]
proof fn run_terminates(overrides: Map<Seq<char>, Permissions>, state: WalkState, world: World) {
    match reply(state.request, world) {
        None => {},
        Some((event, after)) => {
            let following = next(overrides, state, event);
            match state.request {
                Request::ListDirectory(_) => {
                    let due = world.waiting.last();
                    let rest = world.waiting.drop_last();
                    lemma_forest_size_concat(rest, due.subdirs);
                    assert(forest_size(world.waiting) == forest_size(rest) + tree_size(due));
                    assert(tree_size(due) == 1 + forest_size(due.subdirs));
                    assert(forest_size(after.waiting) < forest_size(world.waiting));
                },
                _ => {
                    assert(after == world);
                    assert(rank(following.request) < rank(state.request));
                },
            }
        },
    }
}

/// What a visit comes to: the requests made, in order, and the failure that
/// cut it short, if one did.
pub struct Visit {
    pub requests: Seq<Request>,
    pub failure: Option<Failure>,
}

/// The requests that concern one directory itself: it is listed, and if it
/// could be read and has a level, its permissions are asked for.
pub open spec fn own_requests(overrides: Map<Seq<char>, Permissions>, tree: DirTree) -> Seq<
    Request,
> {
    match (tree.response, directory_level(overrides, tree.path)) {
        (Response::Readable, Some(level)) => seq![
            Request::ListDirectory(tree.path),
            Request::ApplyPermissions(tree.path, level),
        ],
        _ => seq![Request::ListDirectory(tree.path)],
    }
}

/// The visit of a tree: the directory itself, then everything beneath it. A
/// directory that cannot be read fails the visit; a path that is no
/// directory is passed over.
pub open spec fn tree_visit(overrides: Map<Seq<char>, Permissions>, tree: DirTree) -> Visit
    decreases tree,
{
    match tree.response {
        Response::Readable => {
            let below = forest_visit(overrides, tree.subdirs);
            Visit {
                requests: own_requests(overrides, tree) + below.requests,
                failure: below.failure,
            }
        },
        Response::Unreadable => Visit {
            requests: own_requests(overrides, tree),
            failure: Some(Failure { operation: IoOperation::ReadDirectory, path: tree.path }),
        },
        Response::NotADirectory => Visit {
            requests: own_requests(overrides, tree),
            failure: None,
        },
    }
}

/// The visit of a sequence of trees: the last tree first, then the others,
/// unless the visit of the last one failed.
pub open spec fn forest_visit(overrides: Map<Seq<char>, Permissions>, forest: Seq<DirTree>)
    -> Visit
    decreases forest,
{
    if forest.len() == 0 {
        Visit { requests: Seq::empty(), failure: None }
    } else {
        let first = tree_visit(overrides, forest.last());
        if first.failure is Some {
            first
        } else {
            let others = forest_visit(overrides, forest.drop_last());
            Visit { requests: first.requests + others.requests, failure: others.failure }
        }
    }
}

/// The result with which a walk ends after a visit.
pub open spec fn verdict(failure: Option<Failure>) -> Result<(), Failure> {
    match failure {
        Some(failure) => Err(failure),
        None => Ok(()),
    }
}

/// The visit of two sequences of trees put together: the back one is visited
/// first, the front one after it if that visit did not fail.
pub proof fn lemma_forest_visit_concat(
    overrides: Map<Seq<char>, Permissions>,
    front: Seq<DirTree>,
    back: Seq<DirTree>,
)
    ensures
        forest_visit(overrides, back).failure is Some ==> forest_visit(overrides, front + back)
            == forest_visit(overrides, back),
        forest_visit(overrides, back).failure is None ==> forest_visit(overrides, front + back)
            == (Visit {
            requests: forest_visit(overrides, back).requests + forest_visit(
                overrides,
                front,
            ).requests,
            failure: forest_visit(overrides, front).failure,
        }),
    decreases back.len(),
{
    let whole = forest_visit(overrides, front + back);
    let of_back = forest_visit(overrides, back);
    let of_front = forest_visit(overrides, front);
    if back.len() == 0 {
        assert(front + back =~= front);
        assert(of_back.requests + of_front.requests =~= of_front.requests);
    } else {
        let shorter = back.drop_last();
        assert((front + back).drop_last() =~= front + shorter);
        assert((front + back).last() == back.last());
        lemma_forest_visit_concat(overrides, front, shorter);
        let first = tree_visit(overrides, back.last());
        let of_shorter = forest_visit(overrides, shorter);
        if first.failure is None && of_shorter.failure is None {
            assert(first.requests + (of_shorter.requests + of_front.requests) =~= (first.requests
                + of_shorter.requests) + of_front.requests);
        }
    }
}

/// From the moment a walk turns to its worklist, it makes the requests of
/// the visit of the waiting trees and then ends with the visit's verdict.
pub proof fn lemma_run_from_worklist(overrides: Map<Seq<char>, Permissions>, world: World)
    ensures
        run(overrides, resume(root_paths(world.waiting)), world) == forest_visit(
            overrides,
            world.waiting,
        ).requests + seq![
            Request::Finish(verdict(forest_visit(overrides, world.waiting).failure)),
        ],
    decreases forest_size(world.waiting),
{
    let state = resume(root_paths(world.waiting));
    let visit = forest_visit(overrides, world.waiting);
    let end = seq![Request::Finish(verdict(visit.failure))];
    if world.waiting.len() == 0 {
        assert(visit.requests + end =~= end);
    } else {
        let due = world.waiting.last();
        let rest = world.waiting.drop_last();
        let list = Request::ListDirectory(due.path);
        assert(state.request == list);
        assert(state.pending =~= root_paths(rest));
        let first = tree_visit(overrides, due);
        let others = forest_visit(overrides, rest);
        match due.response {
            Response::Unreadable => {
                let after = World { waiting: rest, ..world };
                let stopped = next(overrides, state, Event::ReadFailed);
                assert(reply(stopped.request, after) is None);
                assert(run(overrides, stopped, after) == seq![stopped.request]);
                assert(run(overrides, state, world) == seq![list] + seq![stopped.request]);
                assert(seq![list] + seq![stopped.request] =~= visit.requests + end);
            },
            Response::NotADirectory => {
                let after = World { waiting: rest, ..world };
                assert(next(overrides, state, Event::NotADirectory) == resume(root_paths(rest)));
                assert(forest_size(world.waiting) == forest_size(rest) + tree_size(due));
                lemma_run_from_worklist(overrides, after);
                assert(run(overrides, state, world) == seq![list] + run(
                    overrides,
                    resume(root_paths(rest)),
                    after,
                ));
                assert(seq![list] + (others.requests + end) =~= visit.requests + end);
            },
            Response::Readable => {
                let grown = rest + due.subdirs;
                let after = World { waiting: grown, ..world };
                let below = forest_visit(overrides, due.subdirs);
                assert(state.pending + root_paths(due.subdirs) =~= root_paths(grown));
                lemma_forest_size_concat(rest, due.subdirs);
                assert(forest_size(world.waiting) == forest_size(rest) + tree_size(due));
                assert(tree_size(due) == 1 + forest_size(due.subdirs));
                lemma_run_from_worklist(overrides, after);
                lemma_forest_visit_concat(overrides, rest, due.subdirs);
                let tail = run(overrides, resume(root_paths(grown)), after);
                let listed = Event::Subdirectories(root_paths(due.subdirs));
                assert(reply(list, world) == Some((listed, after)));
                match directory_level(overrides, due.path) {
                    Some(level) => {
                        let apply = Request::ApplyPermissions(due.path, level);
                        let asking = WalkState { pending: root_paths(grown), request: apply };
                        assert(next(overrides, state, listed) == asking);
                        assert(run(overrides, state, world) == seq![list] + run(
                            overrides,
                            asking,
                            after,
                        ));
                        assert(run(overrides, asking, after) == seq![apply] + tail);
                        assert(seq![list] + (seq![apply] + tail) =~= visit.requests + end);
                    },
                    None => {
                        assert(next(overrides, state, listed) == resume(root_paths(grown)));
                        assert(run(overrides, state, world) == seq![list] + tail);
                        assert(seq![list] + tail =~= visit.requests + end);
                    },
                }
            },
        }
    }
}

} // verus!
