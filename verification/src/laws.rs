//! What holds of every walk, stated over the model of the file system.

use vstd::prelude::*;
use crate::permissions::Permissions;
use crate::repository::directory_level;
use crate::tree::{
    forest_size, forest_visit, lemma_run_from_worklist, own_requests, root_paths, run, tree_size,
    tree_visit, verdict, DirTree, World,
};
use crate::walk::{initial, next, resume, Event, Failure, IoOperation, Request, WalkState};

verus! {

/// Whether a tree holds readable directories only.
pub open spec fn tree_readable(tree: DirTree) -> bool
    decreases tree,
{
    tree.response is Readable && forest_readable(tree.subdirs)
}

/// Whether every tree of a sequence holds readable directories only.
pub open spec fn forest_readable(forest: Seq<DirTree>) -> bool
    decreases forest,
{
    forest.len() == 0 || (forest_readable(forest.drop_last()) && tree_readable(forest.last()))
}

/// The paths of the directories of a tree, each once: a directory comes
/// before everything beneath it, and of two directories side by side the one
/// listed later comes first, with everything beneath it.
pub open spec fn tree_paths(tree: DirTree) -> Seq<Seq<char>>
    decreases tree,
{
    seq![tree.path] + forest_paths(tree.subdirs)
}

/// The paths of the directories of a sequence of trees, the last tree first.
pub open spec fn forest_paths(forest: Seq<DirTree>) -> Seq<Seq<char>>
    decreases forest,
{
    if forest.len() == 0 {
        Seq::empty()
    } else {
        tree_paths(forest.last()) + forest_paths(forest.drop_last())
    }
}

/// The paths that a sequence of requests asks to list, in order.
pub open spec fn listed(requests: Seq<Request>) -> Seq<Seq<char>>
    decreases requests.len(),
{
    if requests.len() == 0 {
        Seq::empty()
    } else {
        let before = listed(requests.drop_last());
        match requests.last() {
            Request::ListDirectory(path) => before.push(path),
            _ => before,
        }
    }
}

/// The paths and levels for which a sequence of requests asks permissions,
/// in order.
pub open spec fn applied(requests: Seq<Request>) -> Seq<(Seq<char>, Permissions)>
    decreases requests.len(),
{
    if requests.len() == 0 {
        Seq::empty()
    } else {
        let before = applied(requests.drop_last());
        match requests.last() {
            Request::ApplyPermissions(path, level) => before.push((path, level)),
            _ => before,
        }
    }
}

/// Those of the given paths that have a level, each with its level, in
/// order.
pub open spec fn labelled(overrides: Map<Seq<char>, Permissions>, paths: Seq<Seq<char>>) -> Seq<
    (Seq<char>, Permissions),
>
    decreases paths.len(),
{
    if paths.len() == 0 {
        Seq::empty()
    } else {
        let before = labelled(overrides, paths.drop_last());
        match directory_level(overrides, paths.last()) {
            Some(level) => before.push((paths.last(), level)),
            None => before,
        }
    }
}

/// The requests with which a walk of the tree under `root` opens: the root
/// is probed, and created only if it is missing.
pub open spec fn opening(world: World, root: Seq<char>) -> Seq<Request> {
    if world.root_exists {
        seq![Request::ProbeRoot(root)]
    } else {
        seq![Request::ProbeRoot(root), Request::CreateRoot(root)]
    }
}

proof fn lemma_listed_concat(front: Seq<Request>, back: Seq<Request>)
    ensures
        listed(front + back) == listed(front) + listed(back),
    decreases back.len(),
{
    if back.len() == 0 {
        assert(front + back =~= front);
        assert(listed(front) + listed(back) =~= listed(front));
    } else {
        assert((front + back).drop_last() =~= front + back.drop_last());
        lemma_listed_concat(front, back.drop_last());
        assert(listed(front + back) =~= listed(front) + listed(back));
    }
}

proof fn lemma_applied_concat(front: Seq<Request>, back: Seq<Request>)
    ensures
        applied(front + back) == applied(front) + applied(back),
    decreases back.len(),
{
    if back.len() == 0 {
        assert(front + back =~= front);
        assert(applied(front) + applied(back) =~= applied(front));
    } else {
        assert((front + back).drop_last() =~= front + back.drop_last());
        lemma_applied_concat(front, back.drop_last());
        assert(applied(front + back) =~= applied(front) + applied(back));
    }
}

proof fn lemma_labelled_concat(
    overrides: Map<Seq<char>, Permissions>,
    front: Seq<Seq<char>>,
    back: Seq<Seq<char>>,
)
    ensures
        labelled(overrides, front + back) == labelled(overrides, front) + labelled(
            overrides,
            back,
        ),
    decreases back.len(),
{
    if back.len() == 0 {
        assert(front + back =~= front);
        assert(labelled(overrides, front) + labelled(overrides, back) =~= labelled(
            overrides,
            front,
        ));
    } else {
        assert((front + back).drop_last() =~= front + back.drop_last());
        lemma_labelled_concat(overrides, front, back.drop_last());
        assert(labelled(overrides, front + back) =~= labelled(overrides, front) + labelled(
            overrides,
            back,
        ));
    }
}

/// What the requests that concern one readable directory list and apply.
proof fn lemma_own_requests(overrides: Map<Seq<char>, Permissions>, tree: DirTree)
    requires
        tree.response is Readable,
    ensures
        listed(own_requests(overrides, tree)) == seq![tree.path],
        applied(own_requests(overrides, tree)) == labelled(overrides, seq![tree.path]),
{
    let list = seq![Request::ListDirectory(tree.path)];
    let none = Seq::<Request>::empty();
    assert(list.drop_last() =~= none);
    assert(listed(none) =~= Seq::empty());
    assert(applied(none) =~= Seq::empty());
    assert(listed(list) =~= seq![tree.path]);
    assert(applied(list) =~= Seq::empty());
    let path = seq![tree.path];
    assert(path.drop_last() =~= Seq::<Seq<char>>::empty());
    assert(labelled(overrides, Seq::<Seq<char>>::empty()) =~= Seq::empty());
    match directory_level(overrides, tree.path) {
        Some(level) => {
            let own = own_requests(overrides, tree);
            assert(own.drop_last() =~= list);
            assert(listed(own) =~= seq![tree.path]);
            assert(applied(own) =~= seq![(tree.path, level)]);
            assert(labelled(overrides, path) =~= seq![(tree.path, level)]);
        },
        None => {
            assert(labelled(overrides, path) =~= Seq::empty());
        },
    }
}

proof fn lemma_readable_tree_visit(overrides: Map<Seq<char>, Permissions>, tree: DirTree)
    requires
        tree_readable(tree),
    ensures
        tree_visit(overrides, tree).failure is None,
        listed(tree_visit(overrides, tree).requests) == tree_paths(tree),
        applied(tree_visit(overrides, tree).requests) == labelled(overrides, tree_paths(tree)),
        tree_paths(tree).len() == tree_size(tree),
    decreases tree,
{
    let own = own_requests(overrides, tree);
    let below = forest_visit(overrides, tree.subdirs);
    lemma_readable_forest_visit(overrides, tree.subdirs);
    lemma_own_requests(overrides, tree);
    lemma_listed_concat(own, below.requests);
    lemma_applied_concat(own, below.requests);
    lemma_labelled_concat(overrides, seq![tree.path], forest_paths(tree.subdirs));
}

proof fn lemma_readable_forest_visit(overrides: Map<Seq<char>, Permissions>, forest: Seq<DirTree>)
    requires
        forest_readable(forest),
    ensures
        forest_visit(overrides, forest).failure is None,
        listed(forest_visit(overrides, forest).requests) == forest_paths(forest),
        applied(forest_visit(overrides, forest).requests) == labelled(
            overrides,
            forest_paths(forest),
        ),
        forest_paths(forest).len() == forest_size(forest),
    decreases forest,
{
    if forest.len() > 0 {
        let first = tree_visit(overrides, forest.last());
        let others = forest_visit(overrides, forest.drop_last());
        lemma_readable_tree_visit(overrides, forest.last());
        lemma_readable_forest_visit(overrides, forest.drop_last());
        lemma_listed_concat(first.requests, others.requests);
        lemma_applied_concat(first.requests, others.requests);
        lemma_labelled_concat(
            overrides,
            tree_paths(forest.last()),
            forest_paths(forest.drop_last()),
        );
    }
}

/// The whole of a walk. The root is probed, and created only if it is
/// missing. If it cannot be created the walk ends with that failure and
/// nothing else is asked. Otherwise, whether the root was there or had to be
/// made, the requests of the visit of the tree follow, and the walk ends
/// with the visit's verdict.
pub proof fn lemma_walk_requests(
    overrides: Map<Seq<char>, Permissions>,
    world: World,
    tree: DirTree,
)
    requires
        world.waiting == seq![tree],
    ensures
        world.root_exists || world.root_creatable ==> run(overrides, initial(tree.path), world)
            == opening(world, tree.path) + tree_visit(overrides, tree).requests + seq![
            Request::Finish(verdict(tree_visit(overrides, tree).failure)),
        ],
        !world.root_exists && !world.root_creatable ==> run(
            overrides,
            initial(tree.path),
            world,
        ) == opening(world, tree.path) + seq![
            Request::Finish(
                Err(Failure { operation: IoOperation::CreateRoot, path: tree.path }),
            ),
        ],
{
    let root = tree.path;
    let start = initial(root);
    let probe = Request::ProbeRoot(root);
    let create = Request::CreateRoot(root);
    let visit = tree_visit(overrides, tree);
    let end = seq![Request::Finish(verdict(visit.failure))];
    let entered = resume(root_paths(world.waiting));
    lemma_run_from_worklist(overrides, world);
    assert(world.waiting.drop_last() =~= Seq::<DirTree>::empty());
    assert(forest_visit(overrides, world.waiting.drop_last()).requests =~= Seq::empty());
    assert(forest_visit(overrides, world.waiting).failure == visit.failure);
    assert(forest_visit(overrides, world.waiting).requests =~= visit.requests);
    assert(start.pending.push(root) =~= root_paths(world.waiting));
    let tail = run(overrides, entered, world);
    assert(tail == visit.requests + end);
    if world.root_exists {
        assert(next(overrides, start, Event::RootFound) == entered);
        assert(run(overrides, start, world) == seq![probe] + tail);
        assert(seq![probe] + tail =~= opening(world, root) + visit.requests + end);
    } else {
        let making = WalkState { pending: start.pending, request: create };
        assert(next(overrides, start, Event::RootMissing) == making);
        assert(run(overrides, start, world) == seq![probe] + run(overrides, making, world));
        if world.root_creatable {
            assert(next(overrides, making, Event::RootCreated) == entered);
            assert(run(overrides, making, world) == seq![create] + tail);
            assert(seq![probe] + (seq![create] + tail) =~= opening(world, root) + visit.requests
                + end);
        } else {
            let failed = next(overrides, making, Event::RootCreationFailed);
            assert(run(overrides, failed, world) == seq![failed.request]);
            assert(run(overrides, making, world) == seq![create] + seq![failed.request]);
            assert(seq![probe] + (seq![create] + seq![failed.request]) =~= opening(world, root)
                + seq![failed.request]);
        }
    }
}

/// A walk lists every directory of a tree of readable directories exactly
/// once: the paths that the visit asks to list are the paths of the tree,
/// one request for each directory, and the visit does not fail.
pub proof fn lemma_every_directory_listed_once(
    overrides: Map<Seq<char>, Permissions>,
    tree: DirTree,
)
    requires
        tree_readable(tree),
    ensures
        tree_visit(overrides, tree).failure is None,
        listed(tree_visit(overrides, tree).requests) == tree_paths(tree),
        listed(tree_visit(overrides, tree).requests).len() == tree_size(tree),
{
    lemma_readable_tree_visit(overrides, tree);
}

/// Permissions are asked for exactly the directories that have a level,
/// each with its level, in the order in which the directories are listed. A
/// directory whose name no rule holds gets no such request.
pub proof fn lemma_permissions_follow_levels(overrides: Map<Seq<char>, Permissions>, tree: DirTree)
    requires
        tree_readable(tree),
    ensures
        applied(tree_visit(overrides, tree).requests) == labelled(overrides, tree_paths(tree)),
{
    lemma_readable_tree_visit(overrides, tree);
}

/// Whether a request, if it asks for permissions, asks for the level that
/// the rules give the directory.
pub open spec fn by_level(overrides: Map<Seq<char>, Permissions>, request: Request) -> bool {
    match request {
        Request::ApplyPermissions(path, level) => directory_level(overrides, path) == Some(level),
        _ => true,
    }
}

proof fn lemma_tree_visit_by_level(overrides: Map<Seq<char>, Permissions>, tree: DirTree)
    ensures
        forall|i: int|
            0 <= i < tree_visit(overrides, tree).requests.len() ==> by_level(
                overrides,
                #[trigger] tree_visit(overrides, tree).requests[i],
            ),
    decreases tree,
{
    if tree.response is Readable {
        lemma_forest_visit_by_level(overrides, tree.subdirs);
    }
}

proof fn lemma_forest_visit_by_level(overrides: Map<Seq<char>, Permissions>, forest: Seq<DirTree>)
    ensures
        forall|i: int|
            0 <= i < forest_visit(overrides, forest).requests.len() ==> by_level(
                overrides,
                #[trigger] forest_visit(overrides, forest).requests[i],
            ),
    decreases forest,
{
    if forest.len() > 0 {
        lemma_tree_visit_by_level(overrides, forest.last());
        lemma_forest_visit_by_level(overrides, forest.drop_last());
    }
}

/// Whatever the tree holds, a visit asks permissions only for a directory
/// that has a level, and only for that level: a directory whose name no
/// rule holds is left as it is.
pub proof fn lemma_no_level_no_permissions(
    overrides: Map<Seq<char>, Permissions>,
    tree: DirTree,
    i: int,
)
    requires
        0 <= i < tree_visit(overrides, tree).requests.len(),
    ensures
        by_level(overrides, tree_visit(overrides, tree).requests[i]),
{
    lemma_tree_visit_by_level(overrides, tree);
}

proof fn lemma_tree_visit_failure(overrides: Map<Seq<char>, Permissions>, tree: DirTree)
    ensures
        tree_visit(overrides, tree).requests.len() > 0,
        tree_visit(overrides, tree).failure matches Some(failure) ==> failure.operation
            == IoOperation::ReadDirectory && tree_visit(overrides, tree).requests.last()
            == Request::ListDirectory(failure.path),
    decreases tree,
{
    if tree.response is Readable {
        lemma_forest_visit_failure(overrides, tree.subdirs);
    }
}

proof fn lemma_forest_visit_failure(overrides: Map<Seq<char>, Permissions>, forest: Seq<DirTree>)
    ensures
        forest_visit(overrides, forest).failure matches Some(failure) ==> failure.operation
            == IoOperation::ReadDirectory && forest_visit(overrides, forest).requests.len() > 0
            && forest_visit(overrides, forest).requests.last() == Request::ListDirectory(
            failure.path,
        ),
    decreases forest,
{
    if forest.len() > 0 {
        lemma_tree_visit_failure(overrides, forest.last());
        lemma_forest_visit_failure(overrides, forest.drop_last());
    }
}

/// A directory that cannot be read ends the walk. The failure names the
/// reading of that directory; the listing of it is the last request before
/// the end, so nothing is visited after it; and the walk ends with the
/// failure.
pub proof fn lemma_read_failure_ends_walk(
    overrides: Map<Seq<char>, Permissions>,
    world: World,
    tree: DirTree,
    failure: Failure,
)
    requires
        world.waiting == seq![tree],
        world.root_exists || world.root_creatable,
        tree_visit(overrides, tree).failure == Some(failure),
    ensures
        failure.operation == IoOperation::ReadDirectory,
        ({
            let requests = run(overrides, initial(tree.path), world);
            requests.len() >= 3 && requests[requests.len() - 2] == Request::ListDirectory(
                failure.path,
            ) && requests[requests.len() - 1] == Request::Finish(Err(failure))
        }),
{
    lemma_walk_requests(overrides, world, tree);
    lemma_tree_visit_failure(overrides, tree);
}

/// How often a path with a level occurs among the labelled paths: as often
/// as the path occurs among the paths, if that level is its level, and not
/// at all otherwise.
proof fn lemma_labelled_count(
    overrides: Map<Seq<char>, Permissions>,
    paths: Seq<Seq<char>>,
    path: Seq<char>,
    level: Permissions,
)
    ensures
        labelled(overrides, paths).to_multiset().count((path, level)) == (if directory_level(
            overrides,
            path,
        ) == Some(level) {
            paths.to_multiset().count(path)
        } else {
            0
        }),
    decreases paths.len(),
{
    broadcast use vstd::seq_lib::group_to_multiset_ensures;

    if paths.len() == 0 {
        assert(labelled(overrides, paths).len() == 0);
        assert(labelled(overrides, paths).to_multiset().len() == 0);
        assert(paths.to_multiset().len() == 0);
    } else {
        let before = paths.drop_last();
        let last = paths.last();
        assert(paths =~= before.push(last));
        lemma_labelled_count(overrides, before, path, level);
        assert(paths.to_multiset() =~= before.to_multiset().insert(last));
        match directory_level(overrides, last) {
            Some(found) => {
                assert(labelled(overrides, paths).to_multiset() =~= labelled(
                    overrides,
                    before,
                ).to_multiset().insert((last, found)));
            },
            None => {},
        }
    }
}

/// The order in which directories are listed does not matter to what is
/// applied. Two trees of readable directories that hold the same paths,
/// each as often in the one as in the other, get the same requests for
/// permissions, each as often for the one as for the other; only the order
/// of the requests can differ. A second walk of an unchanged tree asks what
/// the first one asked.
pub proof fn lemma_same_directories_same_permissions(
    overrides: Map<Seq<char>, Permissions>,
    one: DirTree,
    other: DirTree,
)
    requires
        tree_readable(one),
        tree_readable(other),
        tree_paths(one).to_multiset() == tree_paths(other).to_multiset(),
    ensures
        applied(tree_visit(overrides, one).requests).to_multiset() == applied(
            tree_visit(overrides, other).requests,
        ).to_multiset(),
        one == other ==> tree_visit(overrides, one) == tree_visit(overrides, other),
{
    lemma_readable_tree_visit(overrides, one);
    lemma_readable_tree_visit(overrides, other);
    let first = labelled(overrides, tree_paths(one)).to_multiset();
    let second = labelled(overrides, tree_paths(other)).to_multiset();
    assert forall|pair: (Seq<char>, Permissions)| first.count(pair) == second.count(pair) by {
        lemma_labelled_count(overrides, tree_paths(one), pair.0, pair.1);
        lemma_labelled_count(overrides, tree_paths(other), pair.0, pair.1);
    }
    assert(first =~= second);
}

/// Whether a request concerns a directory of the tree: a listing, or
/// permissions.
pub open spec fn about_directory(request: Request) -> bool {
    request is ListDirectory || request is ApplyPermissions
}

proof fn lemma_tree_visit_about_directories(overrides: Map<Seq<char>, Permissions>, tree: DirTree)
    ensures
        forall|i: int|
            0 <= i < tree_visit(overrides, tree).requests.len() ==> about_directory(
                #[trigger] tree_visit(overrides, tree).requests[i],
            ),
    decreases tree,
{
    if tree.response is Readable {
        lemma_forest_visit_about_directories(overrides, tree.subdirs);
    }
}

proof fn lemma_forest_visit_about_directories(
    overrides: Map<Seq<char>, Permissions>,
    forest: Seq<DirTree>,
)
    ensures
        forall|i: int|
            0 <= i < forest_visit(overrides, forest).requests.len() ==> about_directory(
                #[trigger] forest_visit(overrides, forest).requests[i],
            ),
    decreases forest,
{
    if forest.len() > 0 {
        lemma_tree_visit_about_directories(overrides, forest.last());
        lemma_forest_visit_about_directories(overrides, forest.drop_last());
    }
}

/// The root is created if it is missing, and only then. A walk of readable
/// directories ends in success whether the root was there, empty or not, or
/// had to be made.
pub proof fn lemma_root_created_only_if_missing(
    overrides: Map<Seq<char>, Permissions>,
    world: World,
    tree: DirTree,
)
    requires
        world.waiting == seq![tree],
        world.root_exists || world.root_creatable,
        tree_readable(tree),
    ensures
        ({
            let requests = run(overrides, initial(tree.path), world);
            &&& requests.len() >= 3
            &&& requests[0] == Request::ProbeRoot(tree.path)
            &&& !world.root_exists ==> requests[1] == Request::CreateRoot(tree.path)
            &&& world.root_exists ==> forall|i: int|
                0 <= i < requests.len() ==> !(#[trigger] requests[i] is CreateRoot)
            &&& requests.last() == Request::Finish(Ok(()))
        }),
{
    lemma_walk_requests(overrides, world, tree);
    lemma_readable_tree_visit(overrides, tree);
    lemma_tree_visit_about_directories(overrides, tree);
    let requests = run(overrides, initial(tree.path), world);
    let visit = tree_visit(overrides, tree).requests;
    assert(visit.len() >= 1);
    if world.root_exists {
        assert forall|i: int| 0 <= i < requests.len() implies !(#[trigger] requests[i]
            is CreateRoot) by {
            if 1 <= i < 1 + visit.len() {
                assert(requests[i] == visit[i - 1]);
                assert(about_directory(visit[i - 1]));
            }
        }
    }
}

} // verus!
