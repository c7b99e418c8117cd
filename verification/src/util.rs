//! A simple resource provider, limited by claim count and by space, and a
//! producer of import events for the files of a directory.

use vstd::prelude::*;
use crate::entry::{copy_bytes, copy_path, segments, PathComponent, Segment};
use crate::import::ImportEvent;
use crate::storage::{push_all, SEPARATOR};
use crate::traits::{ResourceAllocation, ResourceClaimResult, ResourceProvider};

verus! {

/// The counters of a budget of claims.
///
/// The number of claims is limited hard. The space is limited softly: a
/// claim that would take the space in use over the limit is admitted when,
/// and only when, no other claim is outstanding. An optional hard limit on
/// the size of a single claim makes larger claims impossible.
#[derive(Debug)]
pub struct SimpleResourceProvider {
    claims: usize,
    claims_in_use: usize,
    space: usize,
    space_in_use: usize,
    max_space: Option<usize>,
}

/// The handle of a claim admitted by a [`SimpleResourceProvider`].
#[derive(Debug)]
pub struct SimpleResourceAllocation {
    space: usize,
    released: bool,
}

/// The answer of the policy to a claim, before any counter moves.
pub enum ClaimDecision {
    Grant,
    Busy,
    Impossible,
}

/// The policy: what a provider with these limits and counters answers to a
/// claim of `size` bytes.
pub open spec fn decide(
    claims: nat,
    space: nat,
    max_space: Option<nat>,
    claims_in_use: nat,
    space_in_use: nat,
    size: nat,
) -> ClaimDecision {
    if max_space is Some && size > max_space->Some_0 {
        ClaimDecision::Impossible
    } else if claims_in_use == claims {
        ClaimDecision::Busy
    } else if claims_in_use > 0 && space_in_use + size > space {
        ClaimDecision::Busy
    } else {
        ClaimDecision::Grant
    }
}

impl SimpleResourceProvider {
    /// The hard limit on the number of claims.
    pub closed spec fn max_claims(&self) -> nat {
        self.claims as nat
    }

    /// The soft limit on the space in use.
    pub closed spec fn soft_space(&self) -> nat {
        self.space as nat
    }

    /// The hard limit on the size of one claim, if there is one.
    pub closed spec fn hard_space(&self) -> Option<nat> {
        match self.max_space {
            Some(m) => Some(m as nat),
            None => None,
        }
    }

    /// The number of claims admitted and not released.
    pub closed spec fn used_claims(&self) -> nat {
        self.claims_in_use as nat
    }

    /// The sum of the sizes of the claims admitted and not released.
    pub closed spec fn used_space(&self) -> nat {
        self.space_in_use as nat
    }

    /// The counters are consistent with the policy: the count is within its
    /// limit, no space is in use without a claim, and the soft limit holds
    /// whenever more than one claim is outstanding.
    pub open spec fn wf(&self) -> bool {
        &&& self.used_claims() <= self.max_claims()
        &&& (self.used_claims() == 0 ==> self.used_space() == 0)
        &&& (self.used_claims() > 1 ==> self.used_space() <= self.soft_space())
    }

    /// What the policy answers to a claim of `size` bytes in this state.
    pub open spec fn decision(&self, size: usize) -> ClaimDecision {
        decide(
            self.max_claims(),
            self.soft_space(),
            self.hard_space(),
            self.used_claims(),
            self.used_space(),
            size as nat,
        )
    }

    /// Whether a claim of `space` bytes can be among the outstanding ones, as
    /// far as the counters tell.
    pub open spec fn holds(&self, space: usize) -> bool {
        &&& self.used_claims() >= 1
        &&& self.used_space() >= space
        &&& (self.used_claims() == 1 ==> self.used_space() == space)
    }

    /// A provider with a soft limit on space.
    pub fn new(claims: usize, space: usize) -> (p: Self)
        ensures
            p.wf(),
            p.max_claims() == claims,
            p.soft_space() == space,
            p.hard_space() is None,
            p.used_claims() == 0,
            p.used_space() == 0,
    {
        SimpleResourceProvider { claims, claims_in_use: 0, space, space_in_use: 0, max_space: None }
    }

    /// A provider with a soft limit on space and a hard limit on the size of
    /// a single claim.
    pub fn new_with_max_space(claims: usize, space: usize, max_space: usize) -> (p: Self)
        ensures
            p.wf(),
            p.max_claims() == claims,
            p.soft_space() == space,
            p.hard_space() == Some(max_space as nat),
            p.used_claims() == 0,
            p.used_space() == 0,
    {
        SimpleResourceProvider {
            claims,
            claims_in_use: 0,
            space,
            space_in_use: 0,
            max_space: Some(max_space),
        }
    }

    /// Whether the counters allow a claim of `space` bytes to be released.
    pub fn can_release(&self, space: usize) -> (r: bool)
        ensures
            r == self.holds(space),
    {
        self.claims_in_use >= 1 && self.space_in_use >= space && (self.claims_in_use != 1
            || self.space_in_use == space)
    }
}

impl ResourceProvider for SimpleResourceProvider {
    type ResourceClaim = SimpleResourceAllocation;

    open spec fn valid(&self) -> bool {
        self.wf()
    }

    open spec fn outstanding(&self) -> nat {
        self.used_claims()
    }

    /// Answers as the policy decides. Only a grant moves the counters: by one
    /// claim and by `size` bytes.
    fn claim(&mut self, size: usize) -> (r: ResourceClaimResult<SimpleResourceAllocation>)
        ensures
            final(self).max_claims() == old(self).max_claims(),
            final(self).soft_space() == old(self).soft_space(),
            final(self).hard_space() == old(self).hard_space(),
            match old(self).decision(size) {
                ClaimDecision::Impossible => r is Impossible && *final(self) == *old(self),
                ClaimDecision::Busy => r is Busy && *final(self) == *old(self),
                ClaimDecision::Grant => {
                    &&& r is Granted
                    &&& r->Granted_0.size() == size
                    &&& !r->Granted_0.is_released()
                    &&& final(self).used_claims() == old(self).used_claims() + 1
                    &&& final(self).used_space() == old(self).used_space() + size
                    &&& final(self).holds(size)
                },
            },
    {
        let too_large = match self.max_space {
            Some(max) => size > max,
            None => false,
        };
        if too_large {
            ResourceClaimResult::Impossible
        } else if self.claims_in_use == self.claims {
            ResourceClaimResult::Busy
        } else if self.claims_in_use > 0 && (self.space_in_use > self.space || size > self.space
            - self.space_in_use) {
            ResourceClaimResult::Busy
        } else {
            self.space_in_use = self.space_in_use + size;
            self.claims_in_use = self.claims_in_use + 1;
            ResourceClaimResult::Granted(SimpleResourceAllocation { space: size, released: false })
        }
    }

    fn claims_in_use(&self) -> (n: usize)
        ensures
            n == self.used_claims(),
    {
        self.claims_in_use
    }

    fn spare_claims(&self) -> (n: usize)
        ensures
            n == self.max_claims() - self.used_claims(),
    {
        self.claims - self.claims_in_use
    }

    fn space_in_use(&self) -> (n: usize)
        ensures
            n == self.used_space(),
    {
        self.space_in_use
    }

    /// What is left of the soft limit; nothing where a lone claim went over.
    fn spare_space(&self) -> (n: usize)
        ensures
            n == if self.used_space() >= self.soft_space() {
                0
            } else {
                self.soft_space() - self.used_space()
            },
    {
        self.space.saturating_sub(self.space_in_use)
    }
}

impl SimpleResourceAllocation {
    /// The number of bytes claimed.
    pub closed spec fn size(&self) -> usize {
        self.space
    }

    /// The number of bytes claimed.
    pub fn space(&self) -> (n: usize)
        ensures
            n == self.size(),
    {
        self.space
    }
}

impl ResourceAllocation for SimpleResourceAllocation {
    type Provider = SimpleResourceProvider;

    closed spec fn is_released(&self) -> bool {
        self.released
    }

    open spec fn releasable(&self, provider: &SimpleResourceProvider) -> bool {
        provider.wf() && (!self.is_released() ==> provider.holds(self.size()))
    }

    /// Takes one claim and its bytes off the provider's counters, unless the
    /// handle was released before.
    fn release(&mut self, provider: &mut SimpleResourceProvider)
        ensures
            final(self).size() == old(self).size(),
            final(provider).wf(),
            final(provider).max_claims() == old(provider).max_claims(),
            final(provider).soft_space() == old(provider).soft_space(),
            final(provider).hard_space() == old(provider).hard_space(),
            old(self).is_released() ==> *final(provider) == *old(provider),
            !old(self).is_released() ==> {
                &&& final(provider).used_claims() == old(provider).used_claims() - 1
                &&& final(provider).used_space() == old(provider).used_space() - old(self).size()
            },
    {
        if !self.released {
            provider.claims_in_use = provider.claims_in_use - 1;
            provider.space_in_use = provider.space_in_use - self.space;
            self.released = true;
        }
    }

    fn released(&self) -> (r: bool) {
        self.released
    }
}

/// A provider in a consistent state never holds more claims than its limit,
/// and never holds more space than its soft limit while more than one claim
/// is outstanding.
pub proof fn lemma_budget_respected(p: SimpleResourceProvider)
    requires
        p.wf(),
    ensures
        p.used_claims() <= p.max_claims(),
        !(p.used_claims() > 1 && p.used_space() > p.soft_space()),
{
}

/// A claim that no hard limit forbids is granted whenever nothing is
/// outstanding and the provider admits any claim at all, whatever its size.
pub proof fn lemma_lone_claim_granted(p: SimpleResourceProvider, size: usize)
    requires
        p.wf(),
        p.used_claims() == 0,
        p.max_claims() > 0,
        p.hard_space() is None || size <= p.hard_space()->Some_0,
    ensures
        p.decision(size) is Grant,
{
}

/// What a scan of a directory found: a directory by its path below the
/// base, or a file by the directory it is in (if that is not the base), its
/// name, its length and whether it is executable.
#[derive(Debug)]
pub enum FSEntry {
    Dir(Vec<PathComponent>),
    File(Option<Vec<PathComponent>>, Vec<u8>, usize, bool),
}

/// Where a producer stands among its entries.
#[derive(Debug)]
pub enum FSIMachine {
    /// Nothing was yielded yet.
    Start,
    /// Nothing more will be yielded.
    Finished,
    /// The entry at that position is announced next.
    Next(usize),
    /// The data of the file at that position is yielded next.
    Data(usize),
}

/// What a producer asks of its caller.
#[derive(Debug)]
pub enum StreamStep {
    /// Yield this event.
    Event(ImportEvent),
    /// Read the file at this path and supply what was read.
    Read(Vec<u8>),
    /// The stream has ended.
    End,
}

/// A producer of import events for the files found below a directory.
#[derive(Debug)]
pub struct FSImportStream {
    entries: Vec<FSEntry>,
    state: FSIMachine,
    base_path: Vec<u8>,
}

/// Whether the file has any of the three permissions to execute, given the
/// mode bits of a file.
pub fn is_executable(mode: u32) -> (r: bool)
    ensures
        r == (mode & 0o111 != 0),
{
    (mode & 0o111) != 0
}

/// The path `base` followed by the names in `path`, each after a separator.
/// Components that are no names add nothing.
pub open spec fn join(base: Seq<u8>, path: Seq<Segment>) -> Seq<u8>
    decreases path.len(),
{
    if path.len() == 0 {
        base
    } else {
        match path.last() {
            Segment::Normal(name) => join(base, path.drop_last()) + seq![SEPARATOR] + name,
            _ => join(base, path.drop_last()),
        }
    }
}

/// The path of a file in the directory `parent` below `base`.
pub open spec fn file_path(base: Seq<u8>, parent: Option<Vec<PathComponent>>, name: Seq<u8>) -> Seq<
    u8,
> {
    match parent {
        Some(p) => join(base, segments(p@)) + seq![SEPARATOR] + name,
        None => base + seq![SEPARATOR] + name,
    }
}

/// Whether `event` announces `entry`.
pub open spec fn announces(event: ImportEvent, entry: FSEntry) -> bool {
    match entry {
        FSEntry::Dir(path) => event matches ImportEvent::Directory(p) && segments(p@) == segments(
            path@,
        ),
        FSEntry::File(parent, name, size, executable) => {
            &&& event matches ImportEvent::File(p, n, s, x)
            &&& n@ == name@
            &&& s == size
            &&& x == executable
            &&& match parent {
                Some(path) => p is Some && segments(p->Some_0@) == segments(path@),
                None => p is None,
            }
        },
    }
}

/// Appends to `out` the names in `path`, each after a separator.
fn push_joined(out: &mut Vec<u8>, path: &Vec<PathComponent>)
    ensures
        final(out)@ == join(old(out)@, segments(path@)),
{
    let mut i: usize = 0;
    while i < path.len()
        invariant
            i <= path@.len(),
            out@ == join(old(out)@, segments(path@).take(i as int)),
        decreases path@.len() - i,
    {
        let ghost upto = segments(path@).take(i + 1);
        assert(upto.drop_last() =~= segments(path@).take(i as int));
        assert(upto.last() == path@[i as int]@);
        match &path[i] {
            PathComponent::Normal(name) => {
                out.push(SEPARATOR);
                push_all(out, name.as_slice());
            },
            _ => {},
        }
        i = i + 1;
    }
    assert(segments(path@).take(i as int) =~= segments(path@));
}

impl FSImportStream {
    /// What the scan has found so far.
    pub closed spec fn found(&self) -> Seq<FSEntry> {
        self.entries@
    }

    /// Where the producer stands.
    pub closed spec fn position(&self) -> FSIMachine {
        self.state
    }

    /// The directory that was scanned.
    pub closed spec fn base(&self) -> Seq<u8> {
        self.base_path@
    }

    /// The position is among the entries, and where data is due the entry is
    /// a file.
    pub open spec fn wf(&self) -> bool {
        match self.position() {
            FSIMachine::Next(n) => n <= self.found().len(),
            FSIMachine::Data(n) => n < self.found().len() && self.found()[n as int] is File,
            _ => true,
        }
    }

    /// A producer for the directory at `base_path`, with nothing found yet.
    pub fn new(base_path: Vec<u8>) -> (stream: Self)
        ensures
            stream.wf(),
            stream.base() == base_path@,
            stream.found() == Seq::<FSEntry>::empty(),
            stream.position() is Start,
    {
        FSImportStream { entries: Vec::new(), state: FSIMachine::Start, base_path }
    }

    /// Records a directory found at `sub_path` below the base.
    pub fn push_dir(&mut self, sub_path: Vec<PathComponent>)
        requires
            old(self).position() is Start,
        ensures
            final(self).position() is Start,
            final(self).base() == old(self).base(),
            final(self).found() == old(self).found().push(FSEntry::Dir(sub_path)),
    {
        self.entries.push(FSEntry::Dir(sub_path));
    }

    /// Records a file found in the directory at `sub_path` below the base;
    /// in the base itself where `sub_path` is empty.
    pub fn push_file(
        &mut self,
        sub_path: Vec<PathComponent>,
        name: Vec<u8>,
        len: usize,
        executable: bool,
    )
        requires
            old(self).position() is Start,
        ensures
            final(self).position() is Start,
            final(self).base() == old(self).base(),
            final(self).found() == old(self).found().push(
                FSEntry::File(
                    if sub_path@.len() > 0 {
                        Some(sub_path)
                    } else {
                        None
                    },
                    name,
                    len,
                    executable,
                ),
            ),
    {
        let parent = if sub_path.len() > 0 {
            Some(sub_path)
        } else {
            None
        };
        self.entries.push(FSEntry::File(parent, name, len, executable));
    }

    /// What comes next. Each entry is announced in the order in which it was
    /// found; after a file is announced its data is asked for, and the next
    /// entry follows only when `supply` has taken the data.
    pub fn next_event(&mut self) -> (step: StreamStep)
        requires
            old(self).wf(),
        ensures
            final(self).wf(),
            final(self).found() == old(self).found(),
            final(self).base() == old(self).base(),
            match old(self).position() {
                FSIMachine::Finished => step is End && final(self).position() is Finished,
                FSIMachine::Data(n) => {
                    &&& step matches StreamStep::Read(path)
                    &&& old(self).found()[n as int] matches FSEntry::File(parent, name, _, _)
                    &&& path@ == file_path(old(self).base(), parent, name@)
                    &&& final(self).position() == FSIMachine::Data(n)
                },
                at => {
                    let n = if at is Start {
                        0
                    } else {
                        at->Next_0 as int
                    };
                    if n == old(self).found().len() {
                        step is End && final(self).position() is Finished
                    } else {
                        &&& step matches StreamStep::Event(event)
                        &&& announces(event, old(self).found()[n])
                        &&& final(self).position() == if old(self).found()[n] is Dir {
                            FSIMachine::Next((n + 1) as usize)
                        } else {
                            FSIMachine::Data(n as usize)
                        }
                    }
                },
            },
    {
        let n: usize = match self.state {
            FSIMachine::Finished => {
                return StreamStep::End;
            },
            FSIMachine::Data(n) => {
                match &self.entries[n] {
                    FSEntry::File(parent, name, _, _) => {
                        let mut path = copy_bytes(self.base_path.as_slice());
                        match parent {
                            Some(p) => {
                                push_joined(&mut path, p);
                            },
                            None => {},
                        }
                        path.push(SEPARATOR);
                        push_all(&mut path, name.as_slice());
                        return StreamStep::Read(path);
                    },
                    FSEntry::Dir(_) => {
                        return StreamStep::End;
                    },
                }
            },
            FSIMachine::Start => 0,
            FSIMachine::Next(n) => n,
        };
        if n == self.entries.len() {
            self.state = FSIMachine::Finished;
            return StreamStep::End;
        }
        match &self.entries[n] {
            FSEntry::Dir(path) => {
                let event = ImportEvent::Directory(copy_path(path));
                self.state = FSIMachine::Next(n + 1);
                StreamStep::Event(event)
            },
            FSEntry::File(parent, name, size, executable) => {
                let parent = match parent {
                    Some(p) => Some(copy_path(p)),
                    None => None,
                };
                let event = ImportEvent::File(
                    parent,
                    copy_bytes(name.as_slice()),
                    *size,
                    *executable,
                );
                self.state = FSIMachine::Data(n);
                StreamStep::Event(event)
            },
        }
    }

    /// Takes what reading the file brought: its bytes, which become the
    /// file's data, or the cause of a failure, which ends the stream with an
    /// error event.
    pub fn supply(&mut self, data: Result<Vec<u8>, String>) -> (event: ImportEvent)
        requires
            old(self).wf(),
            old(self).position() is Data,
        ensures
            final(self).wf(),
            final(self).found() == old(self).found(),
            final(self).base() == old(self).base(),
            match data {
                Ok(bytes) => event == ImportEvent::FileData(bytes) && final(self).position()
                    == FSIMachine::Next((old(self).position()->Data_0 + 1) as usize),
                Err(cause) => event == ImportEvent::Error(cause) && final(self).position()
                    is Finished,
            },
    {
        let n: usize = match self.state {
            FSIMachine::Data(n) => n,
            _ => 0,
        };
        assert(n < self.entries.len());
        match data {
            Ok(bytes) => {
                self.state = FSIMachine::Next(n + 1);
                ImportEvent::FileData(bytes)
            },
            Err(cause) => {
                self.state = FSIMachine::Finished;
                ImportEvent::Error(cause)
            },
        }
    }
}

} // verus!
