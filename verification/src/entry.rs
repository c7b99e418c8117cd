//! The entries of an index: a hierarchy of directories whose leaves name
//! blobs in the storage.

use vstd::prelude::*;
use crate::error::{Error, Failure};
use crate::storage::{bytes_eq, push_all, IdView, StorageIdentifier};

pub mod document;

verus! {

/// One component of a path, as the platform's path syntax tells them apart.
#[derive(Debug)]
pub enum PathComponent {
    /// A platform-specific prefix, such as a drive letter.
    Prefix,
    /// The root directory.
    RootDir,
    /// The current directory, `.`.
    CurDir,
    /// The parent directory, `..`.
    ParentDir,
    /// An ordinary name.
    Normal(Vec<u8>),
}

/// A path component as a value: the name of an ordinary one by its bytes.
pub enum Segment {
    Prefix,
    RootDir,
    CurDir,
    ParentDir,
    Normal(Seq<u8>),
}

impl View for PathComponent {
    type V = Segment;

    open spec fn view(&self) -> Segment {
        match self {
            PathComponent::Prefix => Segment::Prefix,
            PathComponent::RootDir => Segment::RootDir,
            PathComponent::CurDir => Segment::CurDir,
            PathComponent::ParentDir => Segment::ParentDir,
            PathComponent::Normal(name) => Segment::Normal(name@),
        }
    }
}

/// A path as a sequence of segments.
pub open spec fn segments(path: Seq<PathComponent>) -> Seq<Segment> {
    Seq::new(path.len(), |i: int| path[i]@)
}

/// What a directory tree holds under one name.
pub enum Node {
    /// A directory, by its entries.
    Dir(Map<Seq<u8>, Node>),
    /// A file, by the identifier of its blob.
    File(IdView),
}

/// Why a walk through a tree stops short.
pub enum Fault {
    /// A component is a platform prefix.
    Prefix,
    /// A component refers to the parent directory.
    Parent,
    /// A component is the root directory.
    RootDir,
    /// No entry has the name.
    NotFound(Seq<u8>),
    /// The entry of that name is a file.
    NotDirectory(Seq<u8>),
}

/// The directory that a path leads to from `dir`, or why it leads nowhere.
/// References to the current directory are passed over; every ordinary
/// component must name a directory.
pub open spec fn resolve(dir: Map<Seq<u8>, Node>, path: Seq<Segment>) -> Result<
    Map<Seq<u8>, Node>,
    Fault,
>
    decreases path.len(),
{
    if path.len() == 0 {
        Ok(dir)
    } else {
        match path[0] {
            Segment::CurDir => resolve(dir, path.drop_first()),
            Segment::Prefix => Err(Fault::Prefix),
            Segment::ParentDir => Err(Fault::Parent),
            Segment::RootDir => Err(Fault::RootDir),
            Segment::Normal(name) => if !dir.contains_key(name) {
                Err(Fault::NotFound(name))
            } else {
                match dir[name] {
                    Node::Dir(sub) => resolve(sub, path.drop_first()),
                    Node::File(_) => Err(Fault::NotDirectory(name)),
                }
            },
        }
    }
}

/// The tree `dir` after a walk along `path` that creates, if `create` is set,
/// each directory it misses. The walk goes as far as `resolve` would on the
/// grown tree, so what it created before it stopped short stays.
pub open spec fn grow(dir: Map<Seq<u8>, Node>, path: Seq<Segment>, create: bool) -> Map<
    Seq<u8>,
    Node,
>
    decreases path.len(),
{
    if path.len() == 0 {
        dir
    } else {
        match path[0] {
            Segment::CurDir => grow(dir, path.drop_first(), create),
            Segment::Normal(name) => if dir.contains_key(name) {
                match dir[name] {
                    Node::Dir(sub) => dir.insert(
                        name,
                        Node::Dir(grow(sub, path.drop_first(), create)),
                    ),
                    Node::File(_) => dir,
                }
            } else if create {
                dir.insert(name, Node::Dir(grow(Map::empty(), path.drop_first(), create)))
            } else {
                dir
            },
            _ => dir,
        }
    }
}

/// The tree `dir` with the directory that `path` leads to replaced by `sub`.
pub open spec fn graft(dir: Map<Seq<u8>, Node>, path: Seq<Segment>, sub: Map<Seq<u8>, Node>) -> Map<
    Seq<u8>,
    Node,
>
    decreases path.len(),
{
    if path.len() == 0 {
        sub
    } else {
        match path[0] {
            Segment::CurDir => graft(dir, path.drop_first(), sub),
            Segment::Normal(name) => if dir.contains_key(name) && dir[name] is Dir {
                dir.insert(name, Node::Dir(graft(dir[name]->Dir_0, path.drop_first(), sub)))
            } else {
                dir
            },
            _ => dir,
        }
    }
}

/// The error that reports `fault` on a walk along `path`.
pub open spec fn fault_error(fault: Fault, path: Seq<Segment>) -> Failure {
    match fault {
        Fault::Prefix => Failure::UnexpectedPrefix(path),
        Fault::Parent => Failure::UnexpectedParent(path),
        Fault::RootDir => Failure::UnexpectedRootDir(path),
        Fault::NotFound(name) => Failure::EntryNotFound(name),
        Fault::NotDirectory(name) => Failure::EntryNotDirectory(name),
    }
}

/// Whether `e` is the error that reports `fault` on a walk along `path`.
pub open spec fn reports(e: Error, fault: Fault, path: Seq<Segment>) -> bool {
    e@ == fault_error(fault, path)
}

/// An entry of a directory: a directory of its own, or a file.
#[derive(Debug)]
pub enum DirectoryEntry {
    Directory(Directory),
    File(StorageIdentifier),
}

/// An entry together with the name it has in its directory.
#[derive(Debug)]
struct NamedEntry {
    name: Vec<u8>,
    entry: DirectoryEntry,
}

/// A directory: entries by name, no name twice.
#[derive(Debug)]
pub struct Directory {
    entries: Vec<NamedEntry>,
}

/// The entries as a map from names to what they hold. Of two entries with
/// one name the later would count; a well-formed directory has no such pair.
spec fn entries_view(entries: Seq<NamedEntry>) -> Map<Seq<u8>, Node>
    decreases entries, 0nat,
{
    if entries.len() == 0 {
        Map::empty()
    } else {
        entries_view(entries.drop_last()).insert(
            entries.last().name@,
            entry_view(entries.last().entry),
        )
    }
}

/// What an entry holds, as a value.
spec fn entry_view(e: DirectoryEntry) -> Node
    decreases e,
{
    match e {
        DirectoryEntry::Directory(d) => Node::Dir(entries_view(d.entries@)),
        DirectoryEntry::File(f) => Node::File(f@),
    }
}

/// No name occurs twice, here or below.
spec fn entries_wf(entries: Seq<NamedEntry>) -> bool
    decreases entries, 0nat,
{
    entries.len() == 0 || {
        &&& entries_wf(entries.drop_last())
        &&& entry_wf(entries.last().entry)
        &&& !entries_view(entries.drop_last()).contains_key(entries.last().name@)
    }
}

/// Well-formedness of what an entry holds.
spec fn entry_wf(e: DirectoryEntry) -> bool
    decreases e,
{
    match e {
        DirectoryEntry::Directory(d) => entries_wf(d.entries@),
        DirectoryEntry::File(_) => true,
    }
}

proof fn lemma_view_has(s: Seq<NamedEntry>, n: Seq<u8>)
    ensures
        entries_view(s).contains_key(n) <==> exists|i: int|
            0 <= i < s.len() && (#[trigger] s[i]).name@ == n,
    decreases s.len(),
{
    if s.len() > 0 {
        lemma_view_has(s.drop_last(), n);
        if entries_view(s).contains_key(n) {
            if s.last().name@ == n {
                assert(s[s.len() - 1].name@ == n);
            } else {
                let i = choose|i: int| 0 <= i < s.drop_last().len() && (#[trigger] s.drop_last()[i]).name@ == n;
                assert(s[i].name@ == n);
            }
        }
        if exists|i: int| 0 <= i < s.len() && (#[trigger] s[i]).name@ == n {
            let i = choose|i: int| 0 <= i < s.len() && (#[trigger] s[i]).name@ == n;
            if i < s.len() - 1 {
                assert(s.drop_last()[i].name@ == n);
            }
        }
    }
}

proof fn lemma_view_at(s: Seq<NamedEntry>, i: int)
    requires
        entries_wf(s),
        0 <= i < s.len(),
    ensures
        entries_view(s).contains_key(s[i].name@),
        entries_view(s)[s[i].name@] == entry_view(s[i].entry),
        entry_wf(s[i].entry),
    decreases s.len(),
{
    if i < s.len() - 1 {
        lemma_view_at(s.drop_last(), i);
        assert(s.drop_last()[i] == s[i]);
    }
}

proof fn lemma_view_update(s: Seq<NamedEntry>, i: int, e: NamedEntry)
    requires
        entries_wf(s),
        0 <= i < s.len(),
        e.name@ == s[i].name@,
    ensures
        entries_view(s.update(i, e)) == entries_view(s).insert(e.name@, entry_view(e.entry)),
        entry_wf(e.entry) ==> entries_wf(s.update(i, e)),
    decreases s.len(),
{
    let t = s.update(i, e);
    if i == s.len() - 1 {
        assert(t.drop_last() =~= s.drop_last());
        assert(entries_view(t) =~= entries_view(s).insert(e.name@, entry_view(e.entry)));
    } else {
        lemma_view_update(s.drop_last(), i, e);
        lemma_view_at(s.drop_last(), i);
        assert(s.drop_last()[i] == s[i]);
        assert(t.drop_last() =~= s.drop_last().update(i, e));
        assert(t.last() == s.last());
        assert(entries_view(t) =~= entries_view(s).insert(e.name@, entry_view(e.entry)));
    }
}

proof fn lemma_view_count(s: Seq<NamedEntry>)
    requires
        entries_wf(s),
    ensures
        entries_view(s).dom().finite(),
        entries_view(s).dom().len() == s.len(),
    decreases s.len(),
{
    if s.len() > 0 {
        lemma_view_count(s.drop_last());
        assert(entries_view(s).dom() =~= entries_view(s.drop_last()).dom().insert(
            s.last().name@,
        ));
    } else {
        assert(entries_view(s).dom() =~= Set::<Seq<u8>>::empty());
    }
}

proof fn lemma_view_prefix(s: Seq<NamedEntry>, i: int)
    requires
        entries_wf(s),
        0 <= i < s.len(),
    ensures
        entries_wf(s.take(i)),
        entries_wf(s.take(i + 1)),
        !entries_view(s.take(i)).contains_key(s[i].name@),
        entries_view(s.take(i + 1)) == entries_view(s.take(i)).insert(
            s[i].name@,
            entry_view(s[i].entry),
        ),
        entry_wf(s[i].entry),
    decreases s.len(),
{
    if i == s.len() - 1 {
        assert(s.take(i) =~= s.drop_last());
        assert(s.take(i + 1) =~= s);
    } else {
        lemma_view_prefix(s.drop_last(), i);
        assert(s.drop_last().take(i) =~= s.take(i));
        assert(s.drop_last().take(i + 1) =~= s.take(i + 1));
    }
}

proof fn lemma_view_push(s: Seq<NamedEntry>, e: NamedEntry)
    ensures
        entries_view(s.push(e)) == entries_view(s).insert(e.name@, entry_view(e.entry)),
        entries_wf(s) && entry_wf(e.entry) && !entries_view(s).contains_key(e.name@)
            ==> entries_wf(s.push(e)),
{
    assert(s.push(e).drop_last() =~= s);
}

/// A walk that creates nothing leaves the tree as it was.
pub proof fn lemma_grow_without_create(dir: Map<Seq<u8>, Node>, path: Seq<Segment>)
    ensures
        grow(dir, path, false) == dir,
    decreases path.len(),
{
    if path.len() > 0 {
        match path[0] {
            Segment::CurDir => {
                lemma_grow_without_create(dir, path.drop_first());
            },
            Segment::Normal(name) => {
                if dir.contains_key(name) && dir[name] is Dir {
                    lemma_grow_without_create(dir[name]->Dir_0, path.drop_first());
                    assert(dir.insert(name, dir[name]) =~= dir);
                }
            },
            _ => {},
        }
    }
}

/// Putting the directory that a path leads to back in its place leaves the
/// tree as it was.
pub proof fn lemma_graft_resolved(dir: Map<Seq<u8>, Node>, path: Seq<Segment>)
    requires
        resolve(dir, path) is Ok,
    ensures
        graft(dir, path, resolve(dir, path)->Ok_0) == dir,
    decreases path.len(),
{
    if path.len() > 0 {
        match path[0] {
            Segment::CurDir => {
                lemma_graft_resolved(dir, path.drop_first());
            },
            Segment::Normal(name) => {
                lemma_graft_resolved(dir[name]->Dir_0, path.drop_first());
                assert(dir.insert(name, dir[name]) =~= dir);
            },
            _ => {},
        }
    }
}

/// A walk that creates what it misses fails only on a component that is no
/// name, or on a file in its way: never for want of an entry.
pub proof fn lemma_grown_has_path(dir: Map<Seq<u8>, Node>, path: Seq<Segment>)
    ensures
        !(resolve(grow(dir, path, true), path) matches Err(Fault::NotFound(_))),
    decreases path.len(),
{
    if path.len() > 0 {
        match path[0] {
            Segment::CurDir => {
                lemma_grown_has_path(dir, path.drop_first());
            },
            Segment::Normal(name) => {
                if dir.contains_key(name) {
                    if dir[name] is Dir {
                        lemma_grown_has_path(dir[name]->Dir_0, path.drop_first());
                    }
                } else {
                    lemma_grown_has_path(Map::empty(), path.drop_first());
                }
            },
            _ => {},
        }
    }
}

/// What a directory grafted at a path is found to be when the path is walked
/// again: the directory itself.
pub proof fn lemma_resolve_grafted(
    dir: Map<Seq<u8>, Node>,
    path: Seq<Segment>,
    sub: Map<Seq<u8>, Node>,
)
    requires
        resolve(dir, path) is Ok,
    ensures
        resolve(graft(dir, path, sub), path) == Ok::<Map<Seq<u8>, Node>, Fault>(sub),
    decreases path.len(),
{
    if path.len() > 0 {
        match path[0] {
            Segment::CurDir => {
                lemma_resolve_grafted(dir, path.drop_first(), sub);
            },
            Segment::Normal(name) => {
                lemma_resolve_grafted(dir[name]->Dir_0, path.drop_first(), sub);
            },
            _ => {},
        }
    }
}

/// A copy of a byte string.
pub(crate) fn copy_bytes(src: &[u8]) -> (out: Vec<u8>)
    ensures
        out@ == src@,
{
    let mut out: Vec<u8> = Vec::new();
    push_all(&mut out, src);
    assert(out@ =~= src@);
    out
}

/// A copy of a path.
pub fn copy_path(path: &Vec<PathComponent>) -> (out: Vec<PathComponent>)
    ensures
        segments(out@) == segments(path@),
{
    let mut out: Vec<PathComponent> = Vec::new();
    let mut i: usize = 0;
    while i < path.len()
        invariant
            i <= path@.len(),
            out@.len() == i,
            forall|k: int| 0 <= k < i ==> (#[trigger] out@[k])@ == path@[k]@,
        decreases path@.len() - i,
    {
        let c = match &path[i] {
            PathComponent::Prefix => PathComponent::Prefix,
            PathComponent::RootDir => PathComponent::RootDir,
            PathComponent::CurDir => PathComponent::CurDir,
            PathComponent::ParentDir => PathComponent::ParentDir,
            PathComponent::Normal(name) => PathComponent::Normal(copy_bytes(name.as_slice())),
        };
        out.push(c);
        i = i + 1;
    }
    assert(segments(out@) =~= segments(path@));
    out
}

/// The text that stands for a name in the text of an index: each byte as
/// the character with that code, so that every name has a text, whatever its
/// bytes, and a name of ASCII bytes reads as itself.
pub open spec fn name_text(name: Seq<u8>) -> Seq<char> {
    Seq::new(name.len(), |i: int| name[i] as char)
}

/// The name that a text stands for: each character as the byte with its
/// code.
pub open spec fn text_name(text: Seq<char>) -> Seq<u8> {
    Seq::new(text.len(), |i: int| text[i] as u8)
}

/// Whether a text stands for a name: every character has a code below 256.
pub open spec fn is_name_text(text: Seq<char>) -> bool {
    forall|i: int| 0 <= i < text.len() ==> (#[trigger] text[i]) as u32 <= 255
}

/// The text that stands for `name` in the text of an index.
pub fn name_to_text(name: &[u8]) -> (text: Vec<char>)
    ensures
        text@ == name_text(name@),
        is_name_text(text@),
{
    let mut text: Vec<char> = Vec::new();
    let mut i: usize = 0;
    while i < name.len()
        invariant
            i <= name@.len(),
            text@.len() == i,
            forall|k: int| 0 <= k < i ==> #[trigger] text@[k] == name@[k] as char,
        decreases name@.len() - i,
    {
        text.push(name[i] as char);
        i = i + 1;
    }
    assert(text@ =~= name_text(name@));
    text
}

/// The name that `text` stands for, if it stands for one.
pub fn text_to_name(text: &[char]) -> (r: Option<Vec<u8>>)
    ensures
        r is Some <==> is_name_text(text@),
        r is Some ==> name_text(r->Some_0@) == text@ && r->Some_0@ == text_name(text@),
{
    let mut name: Vec<u8> = Vec::new();
    let mut i: usize = 0;
    while i < text.len()
        invariant
            i <= text@.len(),
            name@.len() == i,
            forall|k: int| 0 <= k < i ==> (#[trigger] text@[k]) as u32 <= 255,
            forall|k: int| 0 <= k < i ==> #[trigger] name@[k] as char == text@[k],
            forall|k: int| 0 <= k < i ==> #[trigger] name@[k] == text@[k] as u8,
        decreases text@.len() - i,
    {
        let c: char = text[i];
        let code: u32 = c as u32;
        if code > 255 {
            return None;
        }
        let b: u8 = code as u8;
        proof {
            vstd::utf8::char_u32_cast(c, code);
        }
        assert(b as char == c);
        name.push(b);
        i = i + 1;
    }
    assert(name_text(name@) =~= text@);
    assert(name@ =~= text_name(text@));
    Some(name)
}

/// The text of a name stands for that name.
pub proof fn lemma_name_text_round_trip(name: Seq<u8>)
    ensures
        is_name_text(name_text(name)),
        text_name(name_text(name)) == name,
{
    assert forall|i: int| 0 <= i < name.len() implies text_name(name_text(name))[i] == name[i] by {
        assert(name_text(name)[i] == name[i] as char);
        assert(name[i] as char as u8 == name[i]);
    }
    assert(text_name(name_text(name)) =~= name);
}

/// Different names have different texts: a name is found again from its
/// text.
pub proof fn lemma_name_text_injective(a: Seq<u8>, b: Seq<u8>)
    requires
        name_text(a) == name_text(b),
    ensures
        a == b,
{
    assert(a.len() == name_text(a).len());
    assert(b.len() == name_text(b).len());
    assert forall|i: int| 0 <= i < a.len() implies a[i] == b[i] by {
        assert(name_text(a)[i] == a[i] as char);
        assert(name_text(b)[i] == b[i] as char);
        assert(a[i] as char as u8 == a[i]);
        assert(b[i] as char as u8 == b[i]);
    }
    assert(a =~= b);
}

impl View for Directory {
    type V = Map<Seq<u8>, Node>;

    closed spec fn view(&self) -> Map<Seq<u8>, Node> {
        entries_view(self.entries@)
    }
}

impl Default for Directory {
    /// An empty directory.
    fn default() -> (d: Self)
        ensures
            d@ == Map::<Seq<u8>, Node>::empty(),
            d.wf(),
    {
        Directory::new()
    }
}

impl View for DirectoryEntry {
    type V = Node;

    closed spec fn view(&self) -> Node {
        entry_view(*self)
    }
}

impl DirectoryEntry {
    /// Well-formedness of what the entry holds.
    pub closed spec fn wf(&self) -> bool {
        entry_wf(*self)
    }

    /// What the two kinds of entry hold: a directory its entries, a file its
    /// identifier.
    pub proof fn lemma_view(self)
        ensures
            match self {
                DirectoryEntry::Directory(d) => self@ == Node::Dir(d@) && (self.wf() <==> d.wf()),
                DirectoryEntry::File(f) => self@ == Node::File(f@) && self.wf(),
            },
    {
    }
}

impl Directory {
    /// No name occurs twice in any directory of the tree.
    pub closed spec fn wf(&self) -> bool {
        entries_wf(self.entries@)
    }

    /// An empty directory.
    pub fn new() -> (d: Self)
        ensures
            d@ == Map::<Seq<u8>, Node>::empty(),
            d.wf(),
    {
        Directory { entries: Vec::new() }
    }

    /// Whether the directory has no entries.
    pub fn is_empty(&self) -> (r: bool)
        ensures
            r == (self@ == Map::<Seq<u8>, Node>::empty()),
    {
        proof {
            if self.entries@.len() > 0 {
                assert(self@.contains_key(self.entries@.last().name@));
            }
        }
        self.entries.len() == 0
    }

    /// The number of entries.
    pub fn len(&self) -> (n: usize)
        ensures
            n == self.names().len(),
            self.wf() ==> self@.dom().finite() && n == self@.dom().len(),
    {
        proof {
            if self.wf() {
                lemma_view_count(self.entries@);
            }
        }
        self.entries.len()
    }

    /// The names of the entries, in the order in which `entry_at` gives
    /// them.
    pub closed spec fn names(&self) -> Seq<Seq<u8>> {
        Seq::new(self.entries@.len(), |i: int| self.entries@[i].name@)
    }

    /// The entry at position `i`, with its name.
    pub fn entry_at(&self, i: usize) -> (r: (&Vec<u8>, &DirectoryEntry))
        requires
            self.wf(),
            i < self.names().len(),
        ensures
            r.0@ == self.names()[i as int],
            self@.contains_key(r.0@),
            self@[r.0@] == r.1@,
            r.1.wf(),
    {
        proof {
            lemma_view_at(self.entries@, i as int);
        }
        (&self.entries[i].name, &self.entries[i].entry)
    }

    /// The entry named `name`, if there is one.
    pub fn get(&self, name: &[u8]) -> (r: Option<&DirectoryEntry>)
        requires
            self.wf(),
        ensures
            r is Some <==> self@.contains_key(name@),
            r is Some ==> r->Some_0@ == self@[name@] && r->Some_0.wf(),
    {
        match self.find(name) {
            Some(i) => {
                proof {
                    lemma_view_at(self.entries@, i as int);
                }
                Some(&self.entries[i].entry)
            },
            None => None,
        }
    }

    /// The position of the entry named `name`, if there is one.
    fn find(&self, name: &[u8]) -> (r: Option<usize>)
        ensures
            match r {
                Some(i) => i < self.entries@.len() && self.entries@[i as int].name@ == name@,
                None => !self@.contains_key(name@),
            },
            r is Some <==> self@.contains_key(name@),
    {
        let mut i: usize = 0;
        while i < self.entries.len()
            invariant
                i <= self.entries@.len(),
                forall|k: int| 0 <= k < i ==> (#[trigger] self.entries@[k]).name@ != name@,
            decreases self.entries@.len() - i,
        {
            if bytes_eq(self.entries[i].name.as_slice(), name) {
                proof {
                    lemma_view_has(self.entries@, name@);
                }
                return Some(i);
            }
            i = i + 1;
        }
        proof {
            lemma_view_has(self.entries@, name@);
        }
        None
    }

    /// The directory entered by one ordinary component.
    fn descend(&self, component: &[u8]) -> (r: Result<&Directory, Error>)
        requires
            self.wf(),
        ensures
            match r {
                Ok(d) => self@.contains_key(component@) && self@[component@] == Node::Dir(d@)
                    && d.wf(),
                Err(e) => if self@.contains_key(component@) {
                    self@[component@] is File && e@ == Failure::EntryNotDirectory(component@)
                } else {
                    e@ == Failure::EntryNotFound(component@)
                },
            },
    {
        match self.find(component) {
            None => Err(Error::EntryNotFound(copy_bytes(component))),
            Some(i) => {
                proof {
                    lemma_view_at(self.entries@, i as int);
                }
                match &self.entries[i].entry {
                    DirectoryEntry::Directory(d) => Ok(d),
                    DirectoryEntry::File(_) => Err(Error::EntryNotDirectory(copy_bytes(component))),
                }
            },
        }
    }

    /// The directory entered by one ordinary component, for changing it. A
    /// missing entry is made an empty directory if `create` is set.
    fn descend_mut(&mut self, component: &[u8], create: bool) -> (r: Result<
        &mut Directory,
        Error,
    >)
        requires
            old(self).wf(),
        ensures
            match r {
                Ok(d) => {
                    &&& if old(self)@.contains_key(component@) {
                        old(self)@[component@] == Node::Dir(d@)
                    } else {
                        create && d@ == Map::<Seq<u8>, Node>::empty()
                    }
                    &&& d.wf()
                    &&& final(self)@ == old(self)@.insert(component@, Node::Dir(final(d)@))
                    &&& final(d).wf() ==> final(self).wf()
                },
                Err(e) => {
                    &&& final(self)@ == old(self)@
                    &&& final(self).wf()
                    &&& if old(self)@.contains_key(component@) {
                        old(self)@[component@] is File && e@ == Failure::EntryNotDirectory(
                            component@,
                        )
                    } else {
                        !create && e@ == Failure::EntryNotFound(component@)
                    }
                },
            },
    {
        let found = self.find(component);
        let i: usize = match found {
            Some(i) => i,
            None => {
                if !create {
                    return Err(Error::EntryNotFound(copy_bytes(component)));
                }
                let made = NamedEntry {
                    name: copy_bytes(component),
                    entry: DirectoryEntry::Directory(Directory::new()),
                };
                proof {
                    lemma_view_push(self.entries@, made);
                }
                self.entries.push(made);
                self.entries.len() - 1
            },
        };
        proof {
            lemma_view_at(self.entries@, i as int);
        }
        let ghost mid = self.entries@;
        assert(entries_view(mid) =~= old(self)@.insert(component@, entries_view(mid)[component@]));
        if let DirectoryEntry::File(_) = &self.entries[i].entry {
            return Err(Error::EntryNotDirectory(copy_bytes(component)));
        }
        match &mut self.entries[i].entry {
            DirectoryEntry::Directory(d) => {
                proof {
                    let after = NamedEntry {
                        name: mid[i as int].name,
                        entry: DirectoryEntry::Directory(*final(d)),
                    };
                    lemma_view_update(mid, i as int, after);
                    assert(entries_view(mid.update(i as int, after)) =~= old(self)@.insert(
                        component@,
                        Node::Dir(final(d)@),
                    ));
                }
                Ok(d)
            },
            DirectoryEntry::File(_) => Err(Error::EntryNotDirectory(copy_bytes(component))),
        }
    }

    /// The directory that `path` leads to.
    ///
    /// Fails on the first component that is a prefix, the parent or the
    /// root directory, that names no entry, or that names a file.
    pub fn traverse(&self, path: &Vec<PathComponent>) -> (r: Result<&Directory, Error>)
        requires
            self.wf(),
        ensures
            match resolve(self@, segments(path@)) {
                Ok(dir) => r is Ok && r->Ok_0@ == dir && r->Ok_0.wf(),
                Err(fault) => r is Err && reports(r->Err_0, fault, segments(path@)),
            },
    {
        let mut here: &Directory = self;
        let mut i: usize = 0;
        assert(segments(path@).skip(0) =~= segments(path@));
        while i < path.len()
            invariant
                i <= path@.len(),
                here.wf(),
                resolve(self@, segments(path@)) == resolve(here@, segments(path@).skip(i as int)),
            decreases path@.len() - i,
        {
            let ghost rest = segments(path@).skip(i as int);
            assert(rest.drop_first() =~= segments(path@).skip(i + 1));
            assert(rest[0] == path@[i as int]@);
            match &path[i] {
                PathComponent::CurDir => {},
                PathComponent::Prefix => {
                    return Err(Error::UnexpectedPrefix(copy_path(path)));
                },
                PathComponent::ParentDir => {
                    return Err(Error::UnexpectedParent(copy_path(path)));
                },
                PathComponent::RootDir => {
                    return Err(Error::UnexpectedRootDir(copy_path(path)));
                },
                PathComponent::Normal(name) => {
                    match here.descend(name.as_slice()) {
                        Ok(d) => {
                            here = d;
                        },
                        Err(e) => {
                            return Err(e);
                        },
                    }
                },
            }
            i = i + 1;
        }
        Ok(here)
    }

    /// The directory that `path` leads to, for changing it. If `create` is
    /// set, each directory that the walk misses is created, and stays even
    /// where the walk fails later; a file is never created.
    ///
    /// On success the tree is the grown tree with whatever the caller makes
    /// of the directory handed out in the place of that directory.
    pub fn traverse_mut(&mut self, path: &Vec<PathComponent>, create: bool) -> (r: Result<
        &mut Directory,
        Error,
    >)
        requires
            old(self).wf(),
        ensures
            match resolve(grow(old(self)@, segments(path@), create), segments(path@)) {
                Ok(dir) => {
                    &&& r is Ok
                    &&& r->Ok_0@ == dir
                    &&& r->Ok_0.wf()
                    &&& final(self)@ == graft(
                        grow(old(self)@, segments(path@), create),
                        segments(path@),
                        final(r->Ok_0)@,
                    )
                    &&& final(r->Ok_0).wf() ==> final(self).wf()
                },
                Err(fault) => {
                    &&& r is Err
                    &&& reports(r->Err_0, fault, segments(path@))
                    &&& final(self)@ == grow(old(self)@, segments(path@), create)
                    &&& final(self).wf()
                },
            },
    {
        assert(segments(path@).skip(0) =~= segments(path@));
        self.traverse_mut_from(path, 0, create)
    }

    /// `traverse_mut` along the components of `path` from position `start`.
    fn traverse_mut_from(&mut self, path: &Vec<PathComponent>, start: usize, create: bool) -> (r:
        Result<&mut Directory, Error>)
        requires
            old(self).wf(),
            start <= path@.len(),
        ensures
            match resolve(
                grow(old(self)@, segments(path@).skip(start as int), create),
                segments(path@).skip(start as int),
            ) {
                Ok(dir) => {
                    &&& r is Ok
                    &&& r->Ok_0@ == dir
                    &&& r->Ok_0.wf()
                    &&& final(self)@ == graft(
                        grow(old(self)@, segments(path@).skip(start as int), create),
                        segments(path@).skip(start as int),
                        final(r->Ok_0)@,
                    )
                    &&& final(r->Ok_0).wf() ==> final(self).wf()
                },
                Err(fault) => {
                    &&& r is Err
                    &&& reports(r->Err_0, fault, segments(path@))
                    &&& final(self)@ == grow(
                        old(self)@,
                        segments(path@).skip(start as int),
                        create,
                    )
                    &&& final(self).wf()
                },
            },
        decreases path@.len() - start,
    {
        if start >= path.len() {
            return Ok(self);
        }
        let ghost rest = segments(path@).skip(start as int);
        assert(rest.drop_first() =~= segments(path@).skip(start + 1));
        assert(rest[0] == path@[start as int]@);
        match &path[start] {
            PathComponent::CurDir => self.traverse_mut_from(path, start + 1, create),
            PathComponent::Prefix => Err(Error::UnexpectedPrefix(copy_path(path))),
            PathComponent::ParentDir => Err(Error::UnexpectedParent(copy_path(path))),
            PathComponent::RootDir => Err(Error::UnexpectedRootDir(copy_path(path))),
            PathComponent::Normal(name) => {
                match self.descend_mut(name.as_slice(), create) {
                    Err(e) => Err(e),
                    Ok(d) => d.traverse_mut_from(path, start + 1, create),
                }
            },
        }
    }

    /// Puts the file `file_name` with the identifier `identity` into the
    /// directory. Doing so again with the same identifier changes nothing;
    /// a directory or a different file of that name is an error.
    pub fn insert_file(&mut self, file_name: Vec<u8>, identity: StorageIdentifier) -> (r: Result<
        (),
        Error,
    >)
        requires
            old(self).wf(),
        ensures
            final(self).wf(),
            if !old(self)@.contains_key(file_name@) {
                r is Ok && final(self)@ == old(self)@.insert(file_name@, Node::File(identity@))
            } else {
                &&& final(self)@ == old(self)@
                &&& match old(self)@[file_name@] {
                    Node::Dir(_) => r is Err && r->Err_0@ == Failure::FileEntryExistsAsDirectory(
                        file_name@,
                    ),
                    Node::File(f) => if f == identity@ {
                        r is Ok
                    } else {
                        r is Err && r->Err_0@ == Failure::FileEntryExistsAsFile(file_name@)
                    },
                }
            },
    {
        match self.find(file_name.as_slice()) {
            None => {
                let made = NamedEntry { name: file_name, entry: DirectoryEntry::File(identity) };
                proof {
                    lemma_view_push(self.entries@, made);
                }
                self.entries.push(made);
                Ok(())
            },
            Some(i) => {
                proof {
                    lemma_view_at(self.entries@, i as int);
                }
                match &self.entries[i].entry {
                    DirectoryEntry::Directory(_) => Err(
                        Error::FileEntryExistsAsDirectory(file_name),
                    ),
                    DirectoryEntry::File(f) => {
                        if f.same_as(&identity) {
                            Ok(())
                        } else {
                            Err(Error::FileEntryExistsAsFile(file_name))
                        }
                    },
                }
            },
        }
    }

    /// Puts the directory `dir` under the name `file_name` into the
    /// directory, as when a tree is built from its leaves up. Any entry of
    /// that name is in the way: a file as for `mkdir`, a directory as for
    /// `insert_file`.
    pub fn insert_directory(&mut self, file_name: Vec<u8>, dir: Directory) -> (r: Result<
        (),
        Error,
    >)
        requires
            old(self).wf(),
            dir.wf(),
        ensures
            final(self).wf(),
            if !old(self)@.contains_key(file_name@) {
                r is Ok && final(self)@ == old(self)@.insert(file_name@, Node::Dir(dir@))
            } else {
                &&& final(self)@ == old(self)@
                &&& r is Err
                &&& r->Err_0@ == match old(self)@[file_name@] {
                    Node::Dir(_) => Failure::FileEntryExistsAsDirectory(file_name@),
                    Node::File(_) => Failure::DirectoryEntryExistsAsFile(file_name@),
                }
            },
    {
        match self.find(file_name.as_slice()) {
            None => {
                let made = NamedEntry { name: file_name, entry: DirectoryEntry::Directory(dir) };
                proof {
                    lemma_view_push(self.entries@, made);
                }
                self.entries.push(made);
                Ok(())
            },
            Some(i) => {
                proof {
                    lemma_view_at(self.entries@, i as int);
                }
                match &self.entries[i].entry {
                    DirectoryEntry::Directory(_) => Err(
                        Error::FileEntryExistsAsDirectory(file_name),
                    ),
                    DirectoryEntry::File(_) => Err(Error::DirectoryEntryExistsAsFile(file_name)),
                }
            },
        }
    }

    /// Makes the directory `file_name` in the directory. Where a directory of
    /// that name stands nothing changes; a file of that name is an error.
    pub fn mkdir(&mut self, file_name: Vec<u8>) -> (r: Result<(), Error>)
        requires
            old(self).wf(),
        ensures
            final(self).wf(),
            if !old(self)@.contains_key(file_name@) {
                r is Ok && final(self)@ == old(self)@.insert(file_name@, Node::Dir(Map::empty()))
            } else {
                &&& final(self)@ == old(self)@
                &&& match old(self)@[file_name@] {
                    Node::Dir(_) => r is Ok,
                    Node::File(_) => r is Err && r->Err_0@
                        == Failure::DirectoryEntryExistsAsFile(file_name@),
                }
            },
    {
        match self.find(file_name.as_slice()) {
            None => {
                let made = NamedEntry {
                    name: file_name,
                    entry: DirectoryEntry::Directory(Directory::new()),
                };
                proof {
                    lemma_view_push(self.entries@, made);
                }
                self.entries.push(made);
                Ok(())
            },
            Some(i) => {
                proof {
                    lemma_view_at(self.entries@, i as int);
                }
                match &self.entries[i].entry {
                    DirectoryEntry::Directory(_) => Ok(()),
                    DirectoryEntry::File(_) => Err(Error::DirectoryEntryExistsAsFile(file_name)),
                }
            },
        }
    }
}

} // verus!
