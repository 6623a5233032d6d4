//! The traversal of a directory tree, as a machine that the caller drives.
//!
//! The machine never touches the file system. It holds one outstanding
//! request at a time; the caller carries it out and reports what happened,
//! and the machine then decides what is asked next.

use vstd::prelude::*;
use crate::permissions::Permissions;
use crate::repository::{directory_level, TextRepository};

verus! {

/// The file-system operations that can end a walk.
#[derive(Debug, Clone, Copy, PartialEq, Eq, Structural)]
pub enum IoOperation {
    /// Creating the root directory together with its missing ancestors.
    CreateRoot,
    /// Reading the entries of a directory.
    ReadDirectory,
}

/// A failed file-system operation: which one, and on which path.
#[derive(Debug, PartialEq, Eq)]
pub struct IoError {
    pub operation: IoOperation,
    pub path: String,
}

/// What a walk asks its caller to do next.
#[derive(Debug, PartialEq, Eq)]
pub enum WalkRequest {
    /// Find out whether the root exists.
    ProbeRoot(String),
    /// Create the root directory and every missing ancestor.
    CreateRoot(String),
    /// Find out whether the path is a directory and, if it is, which of its
    /// entries are directories.
    ListDirectory(String),
    /// Give the directory the permissions of the level.
    ApplyPermissions(String, Permissions),
    /// Nothing more: the walk has ended, with this result.
    Finish(Result<(), IoError>),
}

/// What the caller reports back to a walk.
#[derive(Debug, PartialEq, Eq)]
pub enum WalkEvent {
    /// The root exists.
    RootFound,
    /// The root does not exist.
    RootMissing,
    /// The root was created.
    RootCreated,
    /// The root could not be created.
    RootCreationFailed,
    /// The path is not a directory, or is one no longer.
    NotADirectory,
    /// The directory could not be read.
    ReadFailed,
    /// The directory was read: these are the paths of its entries that are
    /// directories, in the order in which they were listed.
    Subdirectories(Vec<String>),
    /// The permissions were set.
    PermissionsApplied,
    /// The permissions could not be set.
    PermissionsRefused,
}

/// The model of an [`IoError`].
pub struct Failure {
    pub operation: IoOperation,
    pub path: Seq<char>,
}

/// The model of a [`WalkRequest`].
pub enum Request {
    ProbeRoot(Seq<char>),
    CreateRoot(Seq<char>),
    ListDirectory(Seq<char>),
    ApplyPermissions(Seq<char>, Permissions),
    Finish(Result<(), Failure>),
}

/// The model of a [`WalkEvent`].
pub enum Event {
    RootFound,
    RootMissing,
    RootCreated,
    RootCreationFailed,
    NotADirectory,
    ReadFailed,
    Subdirectories(Seq<Seq<char>>),
    PermissionsApplied,
    PermissionsRefused,
}

/// The model of a [`Walk`]: the paths that wait to be visited, the last of
/// them next, and the request that is outstanding.
pub struct WalkState {
    pub pending: Seq<Seq<char>>,
    pub request: Request,
}

/// The texts of a sequence of strings.
pub open spec fn texts(strings: Seq<String>) -> Seq<Seq<char>> {
    Seq::new(strings.len(), |i: int| strings[i]@)
}

impl View for IoError {
    type V = Failure;

    open spec fn view(&self) -> Failure {
        Failure { operation: self.operation, path: self.path@ }
    }
}

impl View for WalkRequest {
    type V = Request;

    open spec fn view(&self) -> Request {
        match self {
            WalkRequest::ProbeRoot(root) => Request::ProbeRoot(root@),
            WalkRequest::CreateRoot(root) => Request::CreateRoot(root@),
            WalkRequest::ListDirectory(path) => Request::ListDirectory(path@),
            WalkRequest::ApplyPermissions(path, level) => Request::ApplyPermissions(path@, *level),
            WalkRequest::Finish(Ok(())) => Request::Finish(Ok(())),
            WalkRequest::Finish(Err(error)) => Request::Finish(Err(error@)),
        }
    }
}

impl View for WalkEvent {
    type V = Event;

    open spec fn view(&self) -> Event {
        match self {
            WalkEvent::RootFound => Event::RootFound,
            WalkEvent::RootMissing => Event::RootMissing,
            WalkEvent::RootCreated => Event::RootCreated,
            WalkEvent::RootCreationFailed => Event::RootCreationFailed,
            WalkEvent::NotADirectory => Event::NotADirectory,
            WalkEvent::ReadFailed => Event::ReadFailed,
            WalkEvent::Subdirectories(paths) => Event::Subdirectories(texts(paths@)),
            WalkEvent::PermissionsApplied => Event::PermissionsApplied,
            WalkEvent::PermissionsRefused => Event::PermissionsRefused,
        }
    }
}

/// The state in which a walk starts: nothing waits, and the root is to be
/// probed.
pub open spec fn initial(root: Seq<char>) -> WalkState {
    WalkState { pending: Seq::empty(), request: Request::ProbeRoot(root) }
}

/// The state after a directory is done with: the path that was pushed last
/// is taken off the worklist and is to be listed; with nothing left, the walk
/// ends in success.
pub open spec fn resume(pending: Seq<Seq<char>>) -> WalkState {
    if pending.len() == 0 {
        WalkState { pending, request: Request::Finish(Ok(())) }
    } else {
        WalkState { pending: pending.drop_last(), request: Request::ListDirectory(pending.last()) }
    }
}

/// The state that follows `state` when `event` is reported, under the given
/// overrides.
///
/// An existing or newly created root becomes the first path of the worklist.
/// A directory that was read has its subdirectories pushed in listing order;
/// it is then classified, and its permissions are asked for if it has a
/// level. A path that is no directory is passed over. A root that cannot be
/// created, or a directory that cannot be read, ends the walk with that
/// failure. Whether permissions could be set makes no difference to what
/// follows. An event that does not answer the outstanding request changes
/// nothing.
pub open spec fn next(overrides: Map<Seq<char>, Permissions>, state: WalkState, event: Event)
    -> WalkState {
    match (state.request, event) {
        (Request::ProbeRoot(root), Event::RootFound) => resume(state.pending.push(root)),
        (Request::ProbeRoot(root), Event::RootMissing) => WalkState {
            pending: state.pending,
            request: Request::CreateRoot(root),
        },
        (Request::CreateRoot(root), Event::RootCreated) => resume(state.pending.push(root)),
        (Request::CreateRoot(root), Event::RootCreationFailed) => WalkState {
            pending: state.pending,
            request: Request::Finish(
                Err(Failure { operation: IoOperation::CreateRoot, path: root }),
            ),
        },
        (Request::ListDirectory(_), Event::NotADirectory) => resume(state.pending),
        (Request::ListDirectory(path), Event::ReadFailed) => WalkState {
            pending: state.pending,
            request: Request::Finish(
                Err(Failure { operation: IoOperation::ReadDirectory, path }),
            ),
        },
        (Request::ListDirectory(path), Event::Subdirectories(found)) => match directory_level(
            overrides,
            path,
        ) {
            Some(level) => WalkState {
                pending: state.pending + found,
                request: Request::ApplyPermissions(path, level),
            },
            None => resume(state.pending + found),
        },
        (Request::ApplyPermissions(_, _), Event::PermissionsApplied) => resume(state.pending),
        (Request::ApplyPermissions(_, _), Event::PermissionsRefused) => resume(state.pending),
        _ => state,
    }
}

/// A traversal in progress.
pub struct Walk {
    pending: Vec<String>,
    request: WalkRequest,
}

impl View for Walk {
    type V = WalkState;

    closed spec fn view(&self) -> WalkState {
        WalkState { pending: texts(self.pending@), request: self.request@ }
    }
}

impl Walk {
    /// A walk of the tree under the repository's base path. Its first
    /// request is to probe that path.
    pub fn begin(repo: &TextRepository) -> (walk: Walk)
        ensures
            walk@ == initial(repo.base()),
    {
        let walk = Walk {
            pending: Vec::new(),
            request: WalkRequest::ProbeRoot(repo.base_path().to_owned()),
        };
        assert(texts(walk.pending@) =~= Seq::empty());
        walk
    }

    /// The outstanding request.
    pub fn request(&self) -> (request: &WalkRequest)
        ensures
            request@ == self@.request,
    {
        &self.request
    }

    /// Takes the next path off the worklist.
    fn resume(&mut self)
        ensures
            final(self)@ == resume(old(self)@.pending),
    {
        match self.pending.pop() {
            Some(path) => {
                assert(texts(self.pending@) =~= texts(old(self).pending@).drop_last());
                self.request = WalkRequest::ListDirectory(path);
            },
            None => {
                self.request = WalkRequest::Finish(Ok(()));
            },
        }
    }

    /// Puts the root on the worklist and takes it off again to be listed.
    fn enter(&mut self, root: String)
        ensures
            final(self)@ == resume(old(self)@.pending.push(root@)),
    {
        self.pending.push(root);
        assert(texts(self.pending@) =~= texts(old(self).pending@).push(root@));
        self.resume();
    }

    /// Takes in what the caller reports and decides what is asked next. The
    /// rules of `repo` classify each directory that was read.
    pub fn advance(&mut self, repo: &TextRepository, event: WalkEvent)
        ensures
            final(self)@ == next(repo.overrides(), old(self)@, event@),
    {
        match &self.request {
            WalkRequest::ProbeRoot(root) => match event {
                WalkEvent::RootFound => {
                    let root = root.clone();
                    self.enter(root);
                },
                WalkEvent::RootMissing => {
                    let root = root.clone();
                    self.request = WalkRequest::CreateRoot(root);
                },
                _ => {},
            },
            WalkRequest::CreateRoot(root) => match event {
                WalkEvent::RootCreated => {
                    let root = root.clone();
                    self.enter(root);
                },
                WalkEvent::RootCreationFailed => {
                    let path = root.clone();
                    self.request = WalkRequest::Finish(
                        Err(IoError { operation: IoOperation::CreateRoot, path }),
                    );
                },
                _ => {},
            },
            WalkRequest::ListDirectory(path) => match event {
                WalkEvent::NotADirectory => {
                    self.resume();
                },
                WalkEvent::ReadFailed => {
                    let path = path.clone();
                    self.request = WalkRequest::Finish(
                        Err(IoError { operation: IoOperation::ReadDirectory, path }),
                    );
                },
                WalkEvent::Subdirectories(found) => {
                    let path = path.clone();
                    let mut found = found;
                    let ghost added = texts(found@);
                    self.pending.append(&mut found);
                    assert(texts(self.pending@) =~= texts(old(self).pending@) + added);
                    match repo.classify_directory(path.as_str()) {
                        Some(level) => {
                            self.request = WalkRequest::ApplyPermissions(path, level);
                        },
                        None => {
                            self.resume();
                        },
                    }
                },
                _ => {},
            },
            WalkRequest::ApplyPermissions(_, _) => match event {
                WalkEvent::PermissionsApplied => {
                    self.resume();
                },
                WalkEvent::PermissionsRefused => {
                    self.resume();
                },
                _ => {},
            },
            WalkRequest::Finish(_) => {},
        }
    }
}

} // verus!
