//! The document of an index: a directory tree as a JSON value.
//!
//! A directory is an object with the one member `entries`, an object with a
//! member for each entry, keyed by the text of its name. An entry is an
//! object with one member: `Directory`, a directory, or `File`, an object
//! with the members `hash`, `size` and `executable`.

use vstd::prelude::*;
use super::{
    entries_view, entries_wf, entry_view, is_name_text, lemma_name_text_round_trip,
    lemma_view_prefix, name_text, name_to_text, text_name, text_to_name, Directory,
    DirectoryEntry, Node,
};
use crate::error::Error;
use crate::storage::{is_hash, IdView, StorageIdentifier};

verus! {

/// A JSON value. Numbers are the whole numbers a size can be.
#[derive(Debug)]
pub enum Json {
    Null,
    Bool(bool),
    Number(u64),
    Text(Vec<char>),
    Array(Vec<Json>),
    Object(Vec<Member>),
}

/// A member of a JSON object.
#[derive(Debug)]
pub struct Member {
    pub key: Vec<char>,
    pub value: Json,
}

/// The key of the entries of a directory.
pub open spec fn entries_key() -> Seq<char> {
    seq!['e', 'n', 't', 'r', 'i', 'e', 's']
}

/// The key that marks an entry as a directory.
pub open spec fn directory_key() -> Seq<char> {
    seq!['D', 'i', 'r', 'e', 'c', 't', 'o', 'r', 'y']
}

/// The key that marks an entry as a file.
pub open spec fn file_key() -> Seq<char> {
    seq!['F', 'i', 'l', 'e']
}

/// The key of the hash of a file.
pub open spec fn hash_key() -> Seq<char> {
    seq!['h', 'a', 's', 'h']
}

/// The key of the size of a file.
pub open spec fn size_key() -> Seq<char> {
    seq!['s', 'i', 'z', 'e']
}

/// The key of the flag that marks a file as executable.
pub open spec fn executable_key() -> Seq<char> {
    seq!['e', 'x', 'e', 'c', 'u', 't', 'a', 'b', 'l', 'e']
}

/// The value of the first member with the given key.
pub open spec fn lookup(members: Seq<Member>, key: Seq<char>) -> Option<Json>
    decreases members.len(),
{
    if members.len() == 0 {
        None
    } else if members[0].key@ == key {
        Some(members[0].value)
    } else {
        lookup(members.drop_first(), key)
    }
}

/// The identifier that a document describes, if it describes one: an object
/// whose members `hash`, `size` and `executable` are the text of a hash, a
/// number that a length can be, and a truth value. Other members do not
/// count.
pub open spec fn file_of(json: Json) -> Option<IdView> {
    match json {
        Json::Object(members) => match (
            lookup(members@, hash_key()),
            lookup(members@, size_key()),
            lookup(members@, executable_key()),
        ) {
            (Some(Json::Text(hash)), Some(Json::Number(size)), Some(Json::Bool(executable))) => {
                if is_name_text(hash@) && is_hash(text_name(hash@)) && size <= usize::MAX {
                    Some(IdView { hash: text_name(hash@), size: size as nat, executable })
                } else {
                    None
                }
            },
            _ => None,
        },
        _ => None,
    }
}

/// The directory tree that a document describes, if it describes one.
pub open spec fn tree_of(json: Json) -> Option<Map<Seq<u8>, Node>>
    decreases json, 0nat,
{
    match json {
        Json::Object(members) => if members@.len() == 1 && members@[0].key@ == entries_key() {
            match members@[0].value {
                Json::Object(items) => entries_of(items@),
                _ => None,
            }
        } else {
            None
        },
        _ => None,
    }
}

/// The entries that the members of an object describe, if each describes
/// one and no name occurs twice.
pub open spec fn entries_of(items: Seq<Member>) -> Option<Map<Seq<u8>, Node>>
    decreases items, 0nat,
{
    if items.len() == 0 {
        Some(Map::empty())
    } else {
        match (entries_of(items.drop_last()), node_of(items.last().value)) {
            (Some(before), Some(node)) => if is_name_text(items.last().key@)
                && !before.contains_key(text_name(items.last().key@)) {
                Some(before.insert(text_name(items.last().key@), node))
            } else {
                None
            },
            _ => None,
        }
    }
}

/// The entry that a document describes, if it describes one.
pub open spec fn node_of(json: Json) -> Option<Node>
    decreases json, 0nat,
{
    match json {
        Json::Object(members) => if members@.len() != 1 {
            None
        } else if members@[0].key@ == directory_key() {
            match tree_of(members@[0].value) {
                Some(tree) => Some(Node::Dir(tree)),
                None => None,
            }
        } else if members@[0].key@ == file_key() {
            match file_of(members@[0].value) {
                Some(id) => Some(Node::File(id)),
                None => None,
            }
        } else {
            None
        },
        _ => None,
    }
}

proof fn lemma_lookup_at(members: Seq<Member>, i: int, key: Seq<char>)
    requires
        0 <= i < members.len(),
        members[i].key@ == key,
        forall|j: int| 0 <= j < i ==> (#[trigger] members[j]).key@ != key,
    ensures
        lookup(members, key) == Some(members[i].value),
    decreases i,
{
    if i > 0 {
        assert(members[0].key@ != key);
        let rest = members.drop_first();
        assert(rest[i - 1] == members[i]);
        assert forall|j: int| 0 <= j < i - 1 implies (#[trigger] rest[j]).key@ != key by {
            assert(rest[j] == members[j + 1]);
        }
        lemma_lookup_at(rest, i - 1, key);
    }
}

proof fn lemma_lookup_none(members: Seq<Member>, key: Seq<char>)
    requires
        forall|j: int| 0 <= j < members.len() ==> (#[trigger] members[j]).key@ != key,
    ensures
        lookup(members, key) is None,
    decreases members.len(),
{
    if members.len() > 0 {
        assert(members[0].key@ != key);
        let rest = members.drop_first();
        assert forall|j: int| 0 <= j < rest.len() implies (#[trigger] rest[j]).key@ != key by {
            assert(rest[j] == members[j + 1]);
        }
        lemma_lookup_none(rest, key);
    }
}

/// Members that describe no entries among the first of them describe none
/// as a whole.
proof fn lemma_entries_prefix(items: Seq<Member>, i: int)
    requires
        0 <= i <= items.len(),
        entries_of(items.take(i)) is None,
    ensures
        entries_of(items) is None,
    decreases items.len() - i,
{
    if i < items.len() {
        assert(items.take(i + 1).drop_last() =~= items.take(i));
        lemma_entries_prefix(items, i + 1);
    } else {
        assert(items.take(i) =~= items);
    }
}

proof fn lemma_keys_differ()
    ensures
        hash_key() != size_key(),
        hash_key() != executable_key(),
        size_key() != executable_key(),
        directory_key() != file_key(),
{
    assert(hash_key()[0] == 'h' && size_key()[0] == 's');
    assert(hash_key().len() == 4 && size_key().len() == 4 && executable_key().len() == 10);
    assert(directory_key().len() == 9 && file_key().len() == 4);
}

/// Whether two texts are equal.
fn chars_eq(a: &Vec<char>, b: &Vec<char>) -> (r: bool)
    ensures
        r == (a@ == b@),
{
    if a.len() != b.len() {
        return false;
    }
    let mut i: usize = 0;
    while i < a.len()
        invariant
            i <= a@.len(),
            a@.len() == b@.len(),
            forall|k: int| 0 <= k < i ==> a@[k] == b@[k],
        decreases a@.len() - i,
    {
        if a[i] != b[i] {
            return false;
        }
        i = i + 1;
    }
    assert(a@ =~= b@);
    true
}

fn entries_word() -> (w: Vec<char>)
    ensures
        w@ == entries_key(),
{
    vec!['e', 'n', 't', 'r', 'i', 'e', 's']
}

fn directory_word() -> (w: Vec<char>)
    ensures
        w@ == directory_key(),
{
    vec!['D', 'i', 'r', 'e', 'c', 't', 'o', 'r', 'y']
}

fn file_word() -> (w: Vec<char>)
    ensures
        w@ == file_key(),
{
    vec!['F', 'i', 'l', 'e']
}

fn hash_word() -> (w: Vec<char>)
    ensures
        w@ == hash_key(),
{
    vec!['h', 'a', 's', 'h']
}

fn size_word() -> (w: Vec<char>)
    ensures
        w@ == size_key(),
{
    vec!['s', 'i', 'z', 'e']
}

fn executable_word() -> (w: Vec<char>)
    ensures
        w@ == executable_key(),
{
    vec!['e', 'x', 'e', 'c', 'u', 't', 'a', 'b', 'l', 'e']
}

/// The value of the first member with the given key.
fn find<'a>(members: &'a Vec<Member>, key: &Vec<char>) -> (r: Option<&'a Json>)
    ensures
        match r {
            Some(value) => lookup(members@, key@) == Some(*value),
            None => lookup(members@, key@) is None,
        },
{
    let mut i: usize = 0;
    while i < members.len()
        invariant
            i <= members@.len(),
            forall|j: int| 0 <= j < i ==> (#[trigger] members@[j]).key@ != key@,
        decreases members@.len() - i,
    {
        if chars_eq(&members[i].key, key) {
            proof {
                lemma_lookup_at(members@, i as int, key@);
            }
            return Some(&members[i].value);
        }
        i = i + 1;
    }
    proof {
        lemma_lookup_none(members@, key@);
    }
    None
}

/// An object with one member.
fn tagged(key: Vec<char>, value: Json) -> (json: Json)
    ensures
        json matches Json::Object(members) && members@.len() == 1 && members@[0].key == key
            && members@[0].value == value,
{
    let mut members: Vec<Member> = Vec::new();
    members.push(Member { key, value });
    Json::Object(members)
}

/// The document of an identifier.
pub fn file_document(id: &StorageIdentifier) -> (json: Json)
    ensures
        file_of(json) == Some(id@),
{
    let hash = name_to_text(id.hash().as_slice());
    proof {
        lemma_name_text_round_trip(id@.hash);
        lemma_keys_differ();
    }
    let mut members: Vec<Member> = Vec::new();
    members.push(Member { key: hash_word(), value: Json::Text(hash) });
    members.push(Member { key: size_word(), value: Json::Number(id.size() as u64) });
    members.push(Member { key: executable_word(), value: Json::Bool(id.executable()) });
    proof {
        lemma_lookup_at(members@, 0, hash_key());
        lemma_lookup_at(members@, 1, size_key());
        lemma_lookup_at(members@, 2, executable_key());
    }
    Json::Object(members)
}

/// The identifier that a document describes, if it describes one.
pub fn file_from_document(json: &Json) -> (r: Option<StorageIdentifier>)
    ensures
        match file_of(*json) {
            Some(id) => r is Some && r->Some_0@ == id,
            None => r is None,
        },
{
    let members = match json {
        Json::Object(members) => members,
        _ => {
            return None;
        },
    };
    let hash = match find(members, &hash_word()) {
        Some(Json::Text(hash)) => hash,
        _ => {
            return None;
        },
    };
    let size: u64 = match find(members, &size_word()) {
        Some(Json::Number(size)) => *size,
        _ => {
            return None;
        },
    };
    let executable = match find(members, &executable_word()) {
        Some(Json::Bool(executable)) => *executable,
        _ => {
            return None;
        },
    };
    if size > usize::MAX as u64 {
        return None;
    }
    match text_to_name(hash.as_slice()) {
        Some(bytes) => StorageIdentifier::new(bytes, size as usize, executable),
        None => None,
    }
}

/// The document of a directory tree. Read back, it describes the tree.
pub fn to_document(dir: &Directory) -> (json: Json)
    requires
        dir.wf(),
    ensures
        tree_of(json) == Some(dir@),
    decreases dir,
{
    let mut items: Vec<Member> = Vec::new();
    let mut i: usize = 0;
    assert(dir.entries@.take(0) =~= Seq::<super::NamedEntry>::empty());
    while i < dir.entries.len()
        invariant
            i <= dir.entries@.len(),
            entries_wf(dir.entries@),
            entries_of(items@) == Some(entries_view(dir.entries@.take(i as int))),
        decreases dir.entries@.len() - i,
    {
        let entry = &dir.entries[i];
        proof {
            lemma_view_prefix(dir.entries@, i as int);
            lemma_name_text_round_trip(entry.name@);
            lemma_keys_differ();
        }
        let value = match &entry.entry {
            DirectoryEntry::Directory(d) => tagged(directory_word(), to_document(d)),
            DirectoryEntry::File(f) => tagged(file_word(), file_document(f)),
        };
        assert(node_of(value) == Some(entry_view(entry.entry)));
        let ghost before = items@;
        let member = Member { key: name_to_text(entry.name.as_slice()), value };
        items.push(member);
        assert(items@.drop_last() =~= before);
        assert(items@.last() == member);
        i = i + 1;
    }
    assert(dir.entries@.take(i as int) =~= dir.entries@);
    tagged(entries_word(), Json::Object(items))
}

/// The directory tree that a document describes; an error where it
/// describes none.
pub fn from_document(json: &Json) -> (r: Result<Directory, Error>)
    ensures
        match tree_of(*json) {
            Some(tree) => r is Ok && r->Ok_0@ == tree && r->Ok_0.wf(),
            None => r is Err && r->Err_0 is ParsingIndex,
        },
    decreases json,
{
    let members = match json {
        Json::Object(members) => members,
        _ => {
            return Err(no_tree());
        },
    };
    if members.len() != 1 || !chars_eq(&members[0].key, &entries_word()) {
        return Err(no_tree());
    }
    let items = match &members[0].value {
        Json::Object(items) => items,
        _ => {
            return Err(no_tree());
        },
    };
    let mut dir = Directory::new();
    let mut i: usize = 0;
    assert(items@.take(0) =~= Seq::<Member>::empty());
    while i < items.len()
        invariant
            i <= items@.len(),
            dir.wf(),
            entries_of(items@.take(i as int)) == Some(dir@),
            tree_of(*json) == entries_of(items@),
            json matches Json::Object(ms) && ms@.len() == 1 && ms@[0].value == Json::Object(
                *items,
            ),
        decreases items@.len() - i,
    {
        proof {
            assert(items@.take(i + 1).drop_last() =~= items@.take(i as int));
            assert(items@.take(i + 1).last() == items@[i as int]);
            lemma_keys_differ();
            if entries_of(items@.take(i + 1)) is None {
                lemma_entries_prefix(items@, i + 1);
            }
        }
        let name = match text_to_name(items[i].key.as_slice()) {
            Some(name) => name,
            None => {
                return Err(no_tree());
            },
        };
        let tagged = match &items[i].value {
            Json::Object(tagged) => tagged,
            _ => {
                assert(node_of(items@[i as int].value) is None);
                assert(entries_of(items@.take(i + 1)) is None);
                return Err(no_tree());
            },
        };
        if tagged.len() != 1 || dir.get(name.as_slice()).is_some() {
            assert(node_of(items@[i as int].value) is None || dir@.contains_key(name@));
            assert(entries_of(items@.take(i + 1)) is None);
            return Err(no_tree());
        }
        if chars_eq(&tagged[0].key, &directory_word()) {
            let sub = match from_document(&tagged[0].value) {
                Ok(sub) => sub,
                Err(e) => {
                    return Err(e);
                },
            };
            match dir.insert_directory(name, sub) {
                Ok(()) => {},
                Err(_) => {
                    return Err(no_tree());
                },
            }
        } else if chars_eq(&tagged[0].key, &file_word()) {
            let id = match file_from_document(&tagged[0].value) {
                Some(id) => id,
                None => {
                    return Err(no_tree());
                },
            };
            match dir.insert_file(name, id) {
                Ok(()) => {},
                Err(_) => {
                    return Err(no_tree());
                },
            }
        } else {
            return Err(no_tree());
        }
        i = i + 1;
    }
    assert(items@.take(i as int) =~= items@);
    Ok(dir)
}

/// The error for a document that describes no directory tree.
fn no_tree() -> (e: Error)
    ensures
        e is ParsingIndex,
{
    Error::ParsingIndex("the document describes no directory tree".to_owned())
}

} // verus!
