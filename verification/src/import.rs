//! The decisions of an import.
//!
//! An import draws events from a producer, claims room for each file from a
//! resource provider, hands each file's data to a task that stores it, and
//! merges what the tasks report into a directory tree. Drawing, claiming and
//! waiting are the caller's work. What to do next, and what becomes of the
//! tree, is decided here: [`Import::step`] takes what the caller's last
//! action brought and answers with the next action.

use vstd::prelude::*;
use crate::entry::{
    fault_error, graft, grow, lemma_graft_resolved, lemma_grow_without_create, resolve, segments,
    Directory, Node, PathComponent, Segment,
};
use crate::error::{Error, Failure};
use crate::storage::{IdView, StorageIdentifier};
use crate::traits::ResourceClaimResult;

verus! {

/// What a producer yields to an import.
#[derive(Debug)]
pub enum ImportEvent {
    /// A directory to create in the index, by its path.
    Directory(Vec<PathComponent>),
    /// A file to create in the index: the directory it goes into, if it is
    /// not the root; its name; its size in bytes; whether it is executable.
    /// The next event is the file's data.
    File(Option<Vec<PathComponent>>, Vec<u8>, usize, bool),
    /// The data of the file announced by the event before.
    FileData(Vec<u8>),
    /// The producer failed; the import is to be aborted.
    Error(String),
}

/// A file that was announced and whose data is still to come.
#[derive(Debug)]
pub struct FileAnnouncement {
    pub parent: Option<Vec<PathComponent>>,
    pub name: Vec<u8>,
    pub size: usize,
    pub executable: bool,
}

/// The work of one task: store `bytes` as a blob, release `claim`, and
/// report the blob's identifier for the file `name` in `parent`.
#[derive(Debug)]
pub struct FileTask<T> {
    pub claim: T,
    pub parent: Option<Vec<PathComponent>>,
    pub name: Vec<u8>,
    pub executable: bool,
    pub bytes: Vec<u8>,
}

/// What a task reports when it has stored its blob and released its claim.
#[derive(Debug)]
pub struct Completed {
    pub parent: Option<Vec<PathComponent>>,
    pub name: Vec<u8>,
    pub identity: StorageIdentifier,
}

/// Where an import stands.
#[derive(Debug)]
pub enum Phase<T> {
    /// Between files: the next event may be anything.
    Reading,
    /// A file was announced and no claim for it admitted yet.
    Claiming(FileAnnouncement),
    /// A claim was admitted; the next event must be the file's data.
    AwaitingData(FileAnnouncement, T),
    /// The import failed with a claim in hand; the caller releases it.
    Releasing,
    /// No more events are drawn; the tasks still running are waited for.
    Closing,
    /// The import has ended.
    Done,
}

/// What the caller's last action brought.
#[derive(Debug)]
pub enum ImportInput<T> {
    /// What the producer yielded, or `None` at its end.
    Event(Option<ImportEvent>),
    /// What the provider answered to the claim.
    Claim(ResourceClaimResult<T>),
    /// A task ended, having released its claim: what it reports, or why it
    /// failed.
    Completion(Result<Completed, Error>),
    /// The claim handed out for release was released.
    Released,
}

/// What the caller is to do next.
#[derive(Debug)]
pub enum ImportAction<T> {
    /// Draw the next event from the producer. Unless the event is awaited
    /// as the data of a file, tasks that have ended in the meantime may be
    /// reported first.
    Pull,
    /// Ask the provider for a claim of that many bytes.
    Claim(usize),
    /// Wait for a task to end and report it.
    AwaitCompletion,
    /// Start the task, then draw the next event.
    Spawn(FileTask<T>),
    /// Release the claim and report that it was released.
    Release(T),
    /// The import succeeded: commit the tree.
    Commit,
    /// The import failed.
    Fail,
}

/// An import as a value: the tree built so far, where the import stands, how
/// many tasks are running, the first failure, and how many claims were
/// admitted and how many released since the import began.
pub struct ImportModel<T> {
    pub tree: Map<Seq<u8>, Node>,
    pub phase: Phase<T>,
    pub pending: nat,
    pub failure: Option<Failure>,
    pub admitted: nat,
    pub released: nat,
}

/// The path of the directory a file goes into: the root where none is given.
pub open spec fn parent_path(parent: Option<Vec<PathComponent>>) -> Seq<Segment> {
    match parent {
        Some(p) => segments(p@),
        None => Seq::empty(),
    }
}

/// The tree after a directory event for `path`, or why the event fails.
///
/// The last component names the directory to make and the rest leads to its
/// parent, which is created as far as it is missing. A path that does not
/// end in a name asks for nothing.
pub open spec fn with_directory(tree: Map<Seq<u8>, Node>, path: Seq<Segment>) -> Result<
    Map<Seq<u8>, Node>,
    Failure,
> {
    if path.len() == 0 || !(path.last() is Normal) {
        Ok(tree)
    } else {
        let parent = path.drop_last();
        let name = path.last()->Normal_0;
        let grown = grow(tree, parent, true);
        match resolve(grown, parent) {
            Err(fault) => Err(fault_error(fault, parent)),
            Ok(dir) => if !dir.contains_key(name) {
                Ok(graft(grown, parent, dir.insert(name, Node::Dir(Map::empty()))))
            } else if dir[name] is Dir {
                Ok(grown)
            } else {
                Err(Failure::DirectoryEntryExistsAsFile(name))
            },
        }
    }
}

/// The tree after the file `name` with the identifier `id` is merged into the
/// directory at `parent`, or why the merge fails. Nothing is created on the
/// way to `parent`.
pub open spec fn with_file(
    tree: Map<Seq<u8>, Node>,
    parent: Seq<Segment>,
    name: Seq<u8>,
    id: IdView,
) -> Result<Map<Seq<u8>, Node>, Failure> {
    match resolve(tree, parent) {
        Err(fault) => Err(fault_error(fault, parent)),
        Ok(dir) => if !dir.contains_key(name) {
            Ok(graft(tree, parent, dir.insert(name, Node::File(id))))
        } else {
            match dir[name] {
                Node::Dir(_) => Err(Failure::FileEntryExistsAsDirectory(name)),
                Node::File(f) => if f == id {
                    Ok(tree)
                } else {
                    Err(Failure::FileEntryExistsAsFile(name))
                },
            }
        },
    }
}

/// The import with its first failure recorded and its tree discarded.
pub open spec fn failed<T>(m: ImportModel<T>, failure: Failure) -> ImportModel<T> {
    ImportModel { tree: Map::empty(), failure: Some(failure), ..m }
}

/// The end of an import that draws no more events: wait while tasks are
/// running, then commit or fail.
pub open spec fn close<T>(m: ImportModel<T>) -> (ImportModel<T>, ImportAction<T>) {
    if m.pending > 0 {
        (ImportModel { phase: Phase::Closing, ..m }, ImportAction::AwaitCompletion)
    } else if m.failure is None {
        (ImportModel { phase: Phase::Done, ..m }, ImportAction::Commit)
    } else {
        (ImportModel { phase: Phase::Done, ..m }, ImportAction::Fail)
    }
}

/// Whether `input` can be what the last action brought.
pub open spec fn accepts<T>(m: ImportModel<T>, input: ImportInput<T>) -> bool {
    match input {
        ImportInput::Event(ev) => m.phase is Reading || (m.phase is AwaitingData && m.pending
            < usize::MAX),
        ImportInput::Claim(_) => m.phase is Claiming,
        ImportInput::Completion(result) => {
            &&& m.pending > 0
            &&& (m.phase is Reading || m.phase is Claiming || m.phase is Closing)
        },
        ImportInput::Released => m.phase is Releasing,
    }
}

/// The import after an event, and the action that follows it.
pub open spec fn on_event<T>(m: ImportModel<T>, event: Option<ImportEvent>) -> (
    ImportModel<T>,
    ImportAction<T>,
) {
    match m.phase {
        Phase::Reading => match event {
            None => close(m),
            Some(ImportEvent::Error(cause)) => close(
                failed(m, Failure::ImportStreamError(cause@)),
            ),
            Some(ImportEvent::FileData(_)) => close(failed(m, Failure::UnexpectedFileData)),
            Some(ImportEvent::Directory(path)) => match with_directory(m.tree, segments(path@)) {
                Ok(tree) => (ImportModel { tree, ..m }, ImportAction::Pull),
                Err(failure) => close(failed(m, failure)),
            },
            Some(ImportEvent::File(parent, name, size, executable)) => (
                ImportModel {
                    phase: Phase::Claiming(FileAnnouncement { parent, name, size, executable }),
                    ..m
                },
                ImportAction::Claim(size),
            ),
        },
        Phase::AwaitingData(file, claim) => match event {
            Some(ImportEvent::FileData(bytes)) => (
                ImportModel { phase: Phase::Reading, pending: m.pending + 1, ..m },
                ImportAction::Spawn(
                    FileTask {
                        claim,
                        parent: file.parent,
                        name: file.name,
                        executable: file.executable,
                        bytes,
                    },
                ),
            ),
            None => (
                ImportModel { phase: Phase::Releasing, ..failed(m, Failure::UnexpectedEndOfContent) },
                ImportAction::Release(claim),
            ),
            Some(ImportEvent::Error(cause)) => (
                ImportModel {
                    phase: Phase::Releasing,
                    ..failed(m, Failure::ImportStreamError(cause@))
                },
                ImportAction::Release(claim),
            ),
            Some(_) => (
                ImportModel { phase: Phase::Releasing, ..failed(m, Failure::ExpectedFileDataEvent) },
                ImportAction::Release(claim),
            ),
        },
        _ => (m, ImportAction::Pull),
    }
}

/// The import after the provider's answer, and the action that follows it.
pub open spec fn on_claim<T>(m: ImportModel<T>, outcome: ResourceClaimResult<T>) -> (
    ImportModel<T>,
    ImportAction<T>,
) {
    match m.phase {
        Phase::Claiming(file) => match outcome {
            ResourceClaimResult::Granted(claim) => (
                ImportModel {
                    phase: Phase::AwaitingData(file, claim),
                    admitted: m.admitted + 1,
                    ..m
                },
                ImportAction::Pull,
            ),
            ResourceClaimResult::Busy => if m.pending > 0 {
                (m, ImportAction::AwaitCompletion)
            } else {
                (m, ImportAction::Claim(file.size))
            },
            ResourceClaimResult::Impossible => close(
                failed(
                    m,
                    Failure::ImpossibleFileClaim(
                        parent_path(file.parent).push(Segment::Normal(file.name@)),
                        file.size,
                    ),
                ),
            ),
        },
        _ => (m, ImportAction::Pull),
    }
}

/// The import after a task has ended, and the action that follows it. The
/// task has released its claim. Once the import has failed, what tasks
/// report is discarded.
pub open spec fn on_completion<T>(m: ImportModel<T>, result: Result<Completed, Error>) -> (
    ImportModel<T>,
    ImportAction<T>,
) {
    let counted = ImportModel { pending: (m.pending - 1) as nat, released: m.released + 1, ..m };
    let merged = if m.failure is Some {
        counted
    } else {
        match result {
            Err(e) => failed(counted, e@),
            Ok(done) => match with_file(
                m.tree,
                parent_path(done.parent),
                done.name@,
                done.identity@,
            ) {
                Ok(tree) => ImportModel { tree, ..counted },
                Err(failure) => failed(counted, failure),
            },
        }
    };
    if merged.failure is Some || m.phase is Closing {
        close(merged)
    } else {
        match m.phase {
            Phase::Claiming(file) => (merged, ImportAction::Claim(file.size)),
            _ => (merged, ImportAction::Pull),
        }
    }
}

/// The import after `input`, and the action that follows it.
pub open spec fn transition<T>(m: ImportModel<T>, input: ImportInput<T>) -> (
    ImportModel<T>,
    ImportAction<T>,
) {
    match input {
        ImportInput::Event(event) => on_event(m, event),
        ImportInput::Claim(outcome) => on_claim(m, outcome),
        ImportInput::Completion(result) => on_completion(m, result),
        ImportInput::Released => close(ImportModel { released: m.released + 1, ..m }),
    }
}

/// The number of claims the import holds itself: one between the admission
/// of a claim and its hand-over to a task or its release.
pub open spec fn claims_in_hand<T>(m: ImportModel<T>) -> nat {
    if m.phase is AwaitingData || m.phase is Releasing {
        1
    } else {
        0
    }
}

/// The states an import can be in: every claim admitted is released, in
/// hand, or with a running task; an import that has failed has discarded
/// its tree and draws no more events; one that has ended has no task
/// running.
pub open spec fn consistent<T>(m: ImportModel<T>) -> bool {
    &&& m.admitted == m.released + m.pending + claims_in_hand(m)
    &&& (m.failure is Some ==> m.tree == Map::<Seq<u8>, Node>::empty())
    &&& (m.failure is Some ==> m.phase is Releasing || m.phase is Closing || m.phase is Done)
    &&& (m.phase is Releasing ==> m.failure is Some)
    &&& (m.phase is Closing ==> m.pending > 0)
    &&& (m.phase is Done ==> m.pending == 0)
}

/// An import in progress.
pub struct Import<T> {
    root: Directory,
    phase: Phase<T>,
    pending: usize,
    failure: Option<Error>,
    admitted: Ghost<nat>,
    released: Ghost<nat>,
}

/// Makes the directory that a directory event asks for.
fn make_directory(root: &mut Directory, path: Vec<PathComponent>) -> (r: Result<(), Error>)
    requires
        old(root).wf(),
    ensures
        final(root).wf(),
        match with_directory(old(root)@, segments(path@)) {
            Ok(tree) => r is Ok && final(root)@ == tree,
            Err(failure) => r is Err && r->Err_0@ == failure,
        },
{
    let ghost whole = segments(path@);
    let mut path = path;
    match path.pop() {
        Some(PathComponent::Normal(name)) => {
            assert(segments(path@) =~= whole.drop_last());
            assert(whole.last() == Segment::Normal(name@));
            proof {
                let grown = grow(root@, segments(path@), true);
                if resolve(grown, segments(path@)) is Ok {
                    lemma_graft_resolved(grown, segments(path@));
                }
            }
            match root.traverse_mut(&path, true) {
                Ok(d) => d.mkdir(name),
                Err(e) => Err(e),
            }
        },
        Some(_) => Ok(()),
        None => Ok(()),
    }
}

/// Merges what a task reports into the tree.
fn merge(root: &mut Directory, done: Completed) -> (r: Result<(), Error>)
    requires
        old(root).wf(),
    ensures
        final(root).wf(),
        match with_file(old(root)@, parent_path(done.parent), done.name@, done.identity@) {
            Ok(tree) => r is Ok && final(root)@ == tree,
            Err(failure) => r is Err && r->Err_0@ == failure,
        },
{
    let Completed { parent, name, identity } = done;
    match parent {
        Some(path) => {
            proof {
                lemma_grow_without_create(root@, segments(path@));
                if resolve(root@, segments(path@)) is Ok {
                    lemma_graft_resolved(root@, segments(path@));
                }
            }
            match root.traverse_mut(&path, false) {
                Ok(d) => d.insert_file(name, identity),
                Err(e) => Err(e),
            }
        },
        None => root.insert_file(name, identity),
    }
}

impl<T> Import<T> {
    /// The import as a value.
    pub closed spec fn model(&self) -> ImportModel<T> {
        ImportModel {
            tree: self.root@,
            phase: self.phase,
            pending: self.pending as nat,
            failure: match self.failure {
                Some(e) => Some(e@),
                None => None,
            },
            admitted: self.admitted@,
            released: self.released@,
        }
    }

    /// The import is in a state it can be in, and its tree is well-formed.
    pub closed spec fn wf(&self) -> bool {
        consistent(self.model()) && self.root.wf()
    }

    /// A well-formed import is in a state an import can be in.
    pub proof fn lemma_wf_consistent(self)
        requires
            self.wf(),
        ensures
            consistent(self.model()),
    {
    }

    /// An import at its start: an empty tree, nothing claimed, nothing
    /// running. The first action is to draw an event.
    pub fn new() -> (import: Self)
        ensures
            import.wf(),
            import.model() == start::<T>(),
    {
        Import {
            root: Directory::new(),
            phase: Phase::Reading,
            pending: 0,
            failure: None,
            admitted: Ghost(0),
            released: Ghost(0),
        }
    }

    /// Whether the import has ended.
    pub fn is_done(&self) -> (r: bool)
        ensures
            r == (self.model().phase is Done),
    {
        matches!(self.phase, Phase::Done)
    }

    /// The number of tasks running.
    pub fn pending(&self) -> (n: usize)
        ensures
            n == self.model().pending,
    {
        self.pending
    }

    /// Whether the report of a task can be given to `step` now: a task is
    /// running and the import holds no claim of its own.
    pub fn takes_completions(&self) -> (r: bool)
        ensures
            r == (self.model().pending > 0 && (self.model().phase is Reading
                || self.model().phase is Claiming || self.model().phase is Closing)),
    {
        self.pending > 0 && match &self.phase {
            Phase::Reading => true,
            Phase::Claiming(_) => true,
            Phase::Closing => true,
            _ => false,
        }
    }

    /// Whether `input` can be given to `step` now.
    pub fn can_accept(&self, input: &ImportInput<T>) -> (r: bool)
        ensures
            r == accepts(self.model(), *input),
    {
        match input {
            ImportInput::Event(_) => match &self.phase {
                Phase::Reading => true,
                Phase::AwaitingData(_, _) => self.pending < usize::MAX,
                _ => false,
            },
            ImportInput::Claim(_) => matches!(self.phase, Phase::Claiming(_)),
            ImportInput::Completion(_) => self.takes_completions(),
            ImportInput::Released => matches!(self.phase, Phase::Releasing),
        }
    }

    /// What an import that ended has built: the tree, or the first failure.
    pub fn finish(self) -> (r: Result<Directory, Error>)
        requires
            self.wf(),
        ensures
            match self.model().failure {
                None => r is Ok && r->Ok_0@ == self.model().tree && r->Ok_0.wf(),
                Some(failure) => r is Err && r->Err_0@ == failure,
            },
    {
        match self.failure {
            None => Ok(self.root),
            Some(e) => Err(e),
        }
    }

    /// Records the first failure and discards the tree.
    fn fail(self, e: Error) -> (import: Self)
        ensures
            import.model() == failed(self.model(), e@),
            import.root.wf(),
    {
        Import {
            root: Directory::new(),
            phase: self.phase,
            pending: self.pending,
            failure: Some(e),
            admitted: self.admitted,
            released: self.released,
        }
    }

    /// Ends an import that draws no more events.
    fn close(self) -> (next: (Self, ImportAction<T>))
        ensures
            next.0.model() == close(self.model()).0,
            next.1 == close(self.model()).1,
            self.root.wf() ==> next.0.root.wf(),
    {
        let Import { root, phase: _, pending, failure, admitted, released } = self;
        if pending > 0 {
            (
                Import { root, phase: Phase::Closing, pending, failure, admitted, released },
                ImportAction::AwaitCompletion,
            )
        } else if failure.is_none() {
            (
                Import { root, phase: Phase::Done, pending, failure, admitted, released },
                ImportAction::Commit,
            )
        } else {
            (
                Import { root, phase: Phase::Done, pending, failure, admitted, released },
                ImportAction::Fail,
            )
        }
    }

    /// Takes an event of the producer.
    fn on_event(self, event: Option<ImportEvent>) -> (next: (Self, ImportAction<T>))
        requires
            self.wf(),
            accepts(self.model(), ImportInput::Event(event)),
        ensures
            next.0.model() == on_event(self.model(), event).0,
            next.1 == on_event(self.model(), event).1,
            next.0.root.wf(),
    {
        let Import { root, phase, pending, failure, admitted, released } = self;
        match phase {
            Phase::Reading => {
                let here = Import {
                    root,
                    phase: Phase::Reading,
                    pending,
                    failure,
                    admitted,
                    released,
                };
                match event {
                    None => here.close(),
                    Some(ImportEvent::Error(cause)) => here.fail(
                        Error::ImportStreamError(cause),
                    ).close(),
                    Some(ImportEvent::FileData(_)) => here.fail(Error::UnexpectedFileData).close(),
                    Some(ImportEvent::Directory(path)) => {
                        let mut here = here;
                        match make_directory(&mut here.root, path) {
                            Ok(()) => (here, ImportAction::Pull),
                            Err(e) => here.fail(e).close(),
                        }
                    },
                    Some(ImportEvent::File(parent, name, size, executable)) => (
                        Import {
                            root: here.root,
                            phase: Phase::Claiming(
                                FileAnnouncement { parent, name, size, executable },
                            ),
                            pending,
                            failure: here.failure,
                            admitted,
                            released,
                        },
                        ImportAction::Claim(size),
                    ),
                }
            },
            Phase::AwaitingData(file, claim) => {
                match event {
                    Some(ImportEvent::FileData(bytes)) => (
                        Import {
                            root,
                            phase: Phase::Reading,
                            pending: pending + 1,
                            failure,
                            admitted,
                            released,
                        },
                        ImportAction::Spawn(
                            FileTask {
                                claim,
                                parent: file.parent,
                                name: file.name,
                                executable: file.executable,
                                bytes,
                            },
                        ),
                    ),
                    other => {
                        let e = match other {
                            None => Error::UnexpectedEndOfContent,
                            Some(ImportEvent::Error(cause)) => Error::ImportStreamError(cause),
                            Some(_) => Error::ExpectedFileDataEvent,
                        };
                        let here = Import {
                            root,
                            phase: Phase::Releasing,
                            pending,
                            failure,
                            admitted,
                            released,
                        };
                        (here.fail(e), ImportAction::Release(claim))
                    },
                }
            },
            _ => (
                Import { root, phase: Phase::Done, pending, failure, admitted, released },
                ImportAction::Fail,
            ),
        }
    }

    /// Takes the provider's answer to a claim.
    fn on_claim(self, outcome: ResourceClaimResult<T>) -> (next: (Self, ImportAction<T>))
        requires
            self.wf(),
            accepts(self.model(), ImportInput::Claim(outcome)),
        ensures
            next.0.model() == on_claim(self.model(), outcome).0,
            next.1 == on_claim(self.model(), outcome).1,
            next.0.root.wf(),
    {
        let Import { root, phase, pending, failure, admitted, released } = self;
        match phase {
            Phase::Claiming(file) => match outcome {
                ResourceClaimResult::Granted(claim) => (
                    Import {
                        root,
                        phase: Phase::AwaitingData(file, claim),
                        pending,
                        failure,
                        admitted: Ghost(admitted@ + 1),
                        released,
                    },
                    ImportAction::Pull,
                ),
                ResourceClaimResult::Busy => {
                    let action = if pending > 0 {
                        ImportAction::AwaitCompletion
                    } else {
                        ImportAction::Claim(file.size)
                    };
                    (
                        Import {
                            root,
                            phase: Phase::Claiming(file),
                            pending,
                            failure,
                            admitted,
                            released,
                        },
                        action,
                    )
                },
                ResourceClaimResult::Impossible => {
                    let FileAnnouncement { parent, name, size, executable: _ } = file;
                    let mut path = match parent {
                        Some(p) => p,
                        None => Vec::new(),
                    };
                    let ghost before = segments(path@);
                    assert(before =~= parent_path(parent));
                    path.push(PathComponent::Normal(name));
                    assert(segments(path@) =~= before.push(Segment::Normal(name@)));
                    let here = Import {
                        root,
                        phase: Phase::Closing,
                        pending,
                        failure,
                        admitted,
                        released,
                    };
                    here.fail(Error::ImpossibleFileClaim(path, size)).close()
                },
            },
            _ => (
                Import { root, phase: Phase::Done, pending, failure, admitted, released },
                ImportAction::Fail,
            ),
        }
    }

    /// Takes the report of a task that has ended.
    fn on_completion(self, result: Result<Completed, Error>) -> (next: (Self, ImportAction<T>))
        requires
            self.wf(),
            accepts(self.model(), ImportInput::Completion(result)),
        ensures
            next.0.model() == on_completion(self.model(), result).0,
            next.1 == on_completion(self.model(), result).1,
            next.0.root.wf(),
    {
        let Import { root, phase, pending, failure, admitted, released } = self;
        let was_closing = matches!(phase, Phase::Closing);
        let counted = Import {
            root,
            phase,
            pending: pending - 1,
            failure,
            admitted,
            released: Ghost(released@ + 1),
        };
        let merged = if counted.failure.is_some() {
            counted
        } else {
            match result {
                Err(e) => counted.fail(e),
                Ok(done) => {
                    let mut counted = counted;
                    match merge(&mut counted.root, done) {
                        Ok(()) => counted,
                        Err(e) => counted.fail(e),
                    }
                },
            }
        };
        if merged.failure.is_some() || was_closing {
            merged.close()
        } else {
            let action = match &merged.phase {
                Phase::Claiming(file) => ImportAction::Claim(file.size),
                _ => ImportAction::Pull,
            };
            (merged, action)
        }
    }

    /// Takes what the last action brought and answers with the next action.
    ///
    /// The import ends with the action `Commit` or `Fail`; by then every task
    /// has ended and every claim admitted was released.
    pub fn step(self, input: ImportInput<T>) -> (next: (Self, ImportAction<T>))
        requires
            self.wf(),
            accepts(self.model(), input),
        ensures
            next.0.wf(),
            next.0.model() == transition(self.model(), input).0,
            next.1 == transition(self.model(), input).1,
    {
        proof {
            lemma_transition_consistent(self.model(), input);
        }
        match input {
            ImportInput::Event(event) => self.on_event(event),
            ImportInput::Claim(outcome) => self.on_claim(outcome),
            ImportInput::Completion(result) => self.on_completion(result),
            ImportInput::Released => {
                let Import { root, phase, pending, failure, admitted, released } = self;
                let here = Import {
                    root,
                    phase,
                    pending,
                    failure,
                    admitted,
                    released: Ghost(released@ + 1),
                };
                here.close()
            },
        }
    }
}

/// Merging a file below the directory `name` is merging it into that
/// directory and putting the result back.
proof fn lemma_with_file_below(
    tree: Map<Seq<u8>, Node>,
    path: Seq<Segment>,
    file: Seq<u8>,
    id: IdView,
)
    requires
        path.len() > 0,
    ensures
        match path[0] {
            Segment::CurDir => match with_file(tree, path.drop_first(), file, id) {
                Ok(merged) => with_file(tree, path, file, id) == Ok::<
                    Map<Seq<u8>, Node>,
                    Failure,
                >(merged),
                Err(_) => with_file(tree, path, file, id) is Err,
            },
            Segment::Normal(name) => if tree.contains_key(name) && tree[name] is Dir {
                match with_file(tree[name]->Dir_0, path.drop_first(), file, id) {
                    Ok(sub) => with_file(tree, path, file, id) == Ok::<Map<Seq<u8>, Node>, Failure>(
                        tree.insert(name, Node::Dir(sub)),
                    ),
                    Err(_) => with_file(tree, path, file, id) is Err,
                }
            } else {
                with_file(tree, path, file, id) is Err
            },
            _ => with_file(tree, path, file, id) is Err,
        },
{
    match path[0] {
        Segment::Normal(name) => {
            if tree.contains_key(name) && tree[name] is Dir {
                let below = tree[name]->Dir_0;
                let rest = path.drop_first();
                if resolve(below, rest) is Ok {
                    let dir = resolve(below, rest)->Ok_0;
                    if dir.contains_key(file) && dir[file] == Node::File(id) {
                        assert(tree.insert(name, Node::Dir(below)) =~= tree);
                    }
                }
            }
        },
        _ => {},
    }
}

/// Files that tasks report in either order are merged into the same tree:
/// where one order succeeds, so does the other, with the same result.
pub proof fn lemma_merge_order(
    tree: Map<Seq<u8>, Node>,
    parent_a: Seq<Segment>,
    file_a: Seq<u8>,
    id_a: IdView,
    parent_b: Seq<Segment>,
    file_b: Seq<u8>,
    id_b: IdView,
)
    requires
        with_file(tree, parent_a, file_a, id_a) is Ok,
        with_file(with_file(tree, parent_a, file_a, id_a)->Ok_0, parent_b, file_b, id_b) is Ok,
    ensures
        with_file(tree, parent_b, file_b, id_b) is Ok,
        with_file(with_file(tree, parent_b, file_b, id_b)->Ok_0, parent_a, file_a, id_a)
            == with_file(with_file(tree, parent_a, file_a, id_a)->Ok_0, parent_b, file_b, id_b),
    decreases parent_a.len() + parent_b.len(),
{
    let first = with_file(tree, parent_a, file_a, id_a)->Ok_0;
    let both = with_file(first, parent_b, file_b, id_b)->Ok_0;
    if parent_a.len() > 0 && parent_a[0] is CurDir {
        lemma_with_file_below(tree, parent_a, file_a, id_a);
        lemma_merge_order(tree, parent_a.drop_first(), file_a, id_a, parent_b, file_b, id_b);
        let second = with_file(tree, parent_b, file_b, id_b)->Ok_0;
        lemma_with_file_below(second, parent_a, file_a, id_a);
    } else if parent_b.len() > 0 && parent_b[0] is CurDir {
        lemma_with_file_below(first, parent_b, file_b, id_b);
        lemma_merge_order(tree, parent_a, file_a, id_a, parent_b.drop_first(), file_b, id_b);
        lemma_with_file_below(tree, parent_b, file_b, id_b);
    } else if parent_a.len() == 0 && parent_b.len() == 0 {
        let second = with_file(tree, parent_b, file_b, id_b)->Ok_0;
        assert(with_file(second, parent_a, file_a, id_a) is Ok);
        assert(with_file(second, parent_a, file_a, id_a)->Ok_0 =~= both);
    } else if parent_a.len() == 0 {
        lemma_with_file_below(first, parent_b, file_b, id_b);
        lemma_with_file_below(tree, parent_b, file_b, id_b);
        let name = parent_b[0]->Normal_0;
        assert(first[name] == tree[name]);
        let second = with_file(tree, parent_b, file_b, id_b)->Ok_0;
        assert(with_file(second, parent_a, file_a, id_a) is Ok);
        assert(with_file(second, parent_a, file_a, id_a)->Ok_0 =~= both);
    } else if parent_b.len() == 0 {
        lemma_with_file_below(tree, parent_a, file_a, id_a);
        let name = parent_a[0]->Normal_0;
        let second = with_file(tree, parent_b, file_b, id_b)->Ok_0;
        assert(second[name] == tree[name]);
        lemma_with_file_below(second, parent_a, file_a, id_a);
        assert(with_file(second, parent_a, file_a, id_a)->Ok_0 =~= both);
    } else {
        lemma_with_file_below(tree, parent_a, file_a, id_a);
        lemma_with_file_below(first, parent_b, file_b, id_b);
        lemma_with_file_below(tree, parent_b, file_b, id_b);
        let name_a = parent_a[0]->Normal_0;
        let name_b = parent_b[0]->Normal_0;
        if name_a == name_b {
            lemma_merge_order(
                tree[name_a]->Dir_0,
                parent_a.drop_first(),
                file_a,
                id_a,
                parent_b.drop_first(),
                file_b,
                id_b,
            );
            let second = with_file(tree, parent_b, file_b, id_b)->Ok_0;
            lemma_with_file_below(second, parent_a, file_a, id_a);
            assert(with_file(second, parent_a, file_a, id_a)->Ok_0 =~= both);
        } else {
            assert(first[name_b] == tree[name_b]);
            let second = with_file(tree, parent_b, file_b, id_b)->Ok_0;
            assert(second[name_a] == tree[name_a]);
            lemma_with_file_below(second, parent_a, file_a, id_a);
            assert(with_file(second, parent_a, file_a, id_a)->Ok_0 =~= both);
        }
    }
}

/// Every step leads from a state an import can be in to another.
pub proof fn lemma_transition_consistent<T>(m: ImportModel<T>, input: ImportInput<T>)
    requires
        consistent(m),
        accepts(m, input),
    ensures
        consistent(transition(m, input).0),
{
}

/// A step moves the count of admitted claims by one exactly when the
/// provider grants a claim, and never takes back a release.
pub proof fn lemma_admission_counted<T>(m: ImportModel<T>, input: ImportInput<T>)
    requires
        consistent(m),
        accepts(m, input),
    ensures
        transition(m, input).0.admitted == m.admitted + if input matches ImportInput::Claim(
            ResourceClaimResult::Granted(_),
        ) {
            1nat
        } else {
            0nat
        },
        transition(m, input).0.released >= m.released,
{
}

/// When an import has ended, as many claims were released as were admitted,
/// and no task is running.
pub proof fn lemma_handles_balanced<T>(m: ImportModel<T>)
    requires
        consistent(m),
        m.phase is Done,
    ensures
        m.admitted == m.released,
        m.pending == 0,
{
}

/// An import at its start.
pub open spec fn start<T>() -> ImportModel<T> {
    ImportModel {
        tree: Map::empty(),
        phase: Phase::Reading,
        pending: 0,
        failure: None,
        admitted: 0,
        released: 0,
    }
}

/// The import after a run of inputs.
pub open spec fn after<T>(m: ImportModel<T>, inputs: Seq<ImportInput<T>>) -> ImportModel<T>
    decreases inputs.len(),
{
    if inputs.len() == 0 {
        m
    } else {
        transition(after(m, inputs.drop_last()), inputs.last()).0
    }
}

/// Whether each input of a run can be what the action before it brought.
pub open spec fn accepted<T>(m: ImportModel<T>, inputs: Seq<ImportInput<T>>) -> bool
    decreases inputs.len(),
{
    inputs.len() == 0 || (accepted(m, inputs.drop_last()) && accepts(
        after(m, inputs.drop_last()),
        inputs.last(),
    ))
}

/// A run of inputs leads from a state an import can be in to another.
pub proof fn lemma_run_consistent<T>(m: ImportModel<T>, inputs: Seq<ImportInput<T>>)
    requires
        consistent(m),
        accepted(m, inputs),
    ensures
        consistent(after(m, inputs)),
    decreases inputs.len(),
{
    if inputs.len() > 0 {
        lemma_run_consistent(m, inputs.drop_last());
        lemma_transition_consistent(after(m, inputs.drop_last()), inputs.last());
    }
}

/// Whatever an import is given from its start on: when it has ended, as many
/// claims were released as were admitted, and no task is running.
pub proof fn lemma_import_releases_every_claim<T>(inputs: Seq<ImportInput<T>>)
    requires
        accepted(start::<T>(), inputs),
        after(start::<T>(), inputs).phase is Done,
    ensures
        after(start::<T>(), inputs).admitted == after(start::<T>(), inputs).released,
        after(start::<T>(), inputs).pending == 0,
{
    lemma_run_consistent(start::<T>(), inputs);
}

/// The actions that end an import are given exactly when it ends, `Fail`
/// where a failure was recorded and `Commit` where none was. The first
/// failure stays, and with a failure the tree is empty.
pub proof fn lemma_ending<T>(m: ImportModel<T>, input: ImportInput<T>)
    requires
        consistent(m),
        accepts(m, input),
    ensures
        ({
            let (next, action) = transition(m, input);
            &&& (action is Commit || action is Fail) <==> next.phase is Done
            &&& action is Fail ==> next.failure is Some
            &&& action is Commit ==> next.failure is None
            &&& m.failure is Some ==> next.failure == m.failure
            &&& next.failure is Some ==> next.tree == Map::<Seq<u8>, Node>::empty()
        }),
{
}

} // verus!
