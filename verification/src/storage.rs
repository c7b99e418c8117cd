//! Blob identifiers, where their blobs lie on disk, and the indices of a
//! storage.

use vstd::prelude::*;
use sha2::Digest;
use crate::entry::{Directory, Node};
use crate::error::{Error, Failure};

use crate::import::Import;

pub use crate::import::ImportEvent;

verus! {

/// The byte `/`, which separates the components of a path.
pub const SEPARATOR: u8 = 47;

/// The byte `-`, which separates a blob's hash from its size.
pub const DASH: u8 = 45;

/// The byte `x`, which marks the blob of an executable file.
pub const EXECUTABLE_MARK: u8 = 120;

/// The number of bytes in a SHA-256 digest.
pub const DIGEST_LEN: usize = 32;

/// The number of hexadecimal digits in the hash of an identifier.
pub const HASH_LEN: usize = 64;

/// The SHA-256 digest of a sequence of bytes.
pub uninterp spec fn sha256(bytes: Seq<u8>) -> Seq<u8>;

/// Calls `sha2::Sha256::digest`, the one-shot form of the hash function.
/// The result is the SHA-256 digest of `bytes`, which is 32 bytes long.
#[verifier::external_body]
fn sha256_digest(bytes: &[u8]) -> (digest: Vec<u8>)
    ensures
        digest@ == sha256(bytes@),
        digest@.len() == DIGEST_LEN,
{
    sha2::Sha256::digest(bytes).to_vec()
}

/// The lower-case hexadecimal digit of a value below sixteen, as a byte.
pub open spec fn hex_digit(n: int) -> u8 {
    if n < 10 {
        (48 + n) as u8
    } else {
        (87 + n) as u8
    }
}

/// Whether a byte is a lower-case hexadecimal digit.
pub open spec fn is_hex_digit(b: u8) -> bool {
    (48 <= b <= 57) || (97 <= b <= 102)
}

/// The bytes written in lower-case hexadecimal, two digits each, the high
/// digit first.
pub open spec fn hex(bytes: Seq<u8>) -> Seq<u8> {
    Seq::new(
        2 * bytes.len(),
        |i: int|
            if i % 2 == 0 {
                hex_digit(bytes[i / 2] as int / 16)
            } else {
                hex_digit(bytes[i / 2] as int % 16)
            },
    )
}

/// The decimal digits of a number, most significant first, without leading
/// zeros.
pub open spec fn decimal(n: nat) -> Seq<u8>
    decreases n,
{
    if n < 10 {
        seq![(48 + n) as u8]
    } else {
        decimal(n / 10).push((48 + n % 10) as u8)
    }
}

/// The bytes of the word `data`, the directory of the blobs.
pub open spec fn data_dir() -> Seq<u8> {
    seq![100u8, 97u8, 116u8, 97u8]
}

/// The bytes of `.tmp`, which end the name of a file while it is written.
pub open spec fn temp_suffix() -> Seq<u8> {
    seq![46u8, 116u8, 109u8, 112u8]
}

/// What an identifier says: the hash in hexadecimal, the length of the blob
/// and whether it is executable.
pub struct IdView {
    pub hash: Seq<u8>,
    pub size: nat,
    pub executable: bool,
}

/// The identifier of a blob with the given bytes.
pub open spec fn identifier_of(bytes: Seq<u8>, executable: bool) -> IdView {
    IdView { hash: hex(sha256(bytes)), size: bytes.len(), executable }
}

/// The identifier of a blob of `size` bytes with the given digest.
pub open spec fn identifier_from_digest(digest: Seq<u8>, size: nat, executable: bool) -> IdView {
    IdView { hash: hex(digest), size, executable }
}

/// Whether a hash has the shape of a SHA-256 digest in lower-case
/// hexadecimal.
pub open spec fn is_hash(hash: Seq<u8>) -> bool {
    &&& hash.len() == HASH_LEN
    &&& forall|i: int| 0 <= i < hash.len() ==> is_hex_digit(#[trigger] hash[i])
}

/// Where the blob of an identifier lies under the storage root `base`:
/// in `data`, under two levels of directories named by the first four digits
/// of the hash, in a file named by the rest of the hash, a dash, the size in
/// decimal and an `x` if the blob is executable.
pub open spec fn blob_path(base: Seq<u8>, id: IdView) -> Seq<u8> {
    base + seq![SEPARATOR] + data_dir() + seq![SEPARATOR] + id.hash.subrange(0, 2)
        + seq![SEPARATOR] + id.hash.subrange(2, 4) + seq![SEPARATOR] + id.hash.subrange(
        4,
        id.hash.len() as int,
    ) + seq![DASH] + decimal(id.size) + if id.executable {
        seq![EXECUTABLE_MARK]
    } else {
        Seq::<u8>::empty()
    }
}

/// The name of a blob in a storage: the SHA-256 digest of its bytes in
/// hexadecimal, its length, and whether it is executable.
#[derive(Debug)]
pub struct StorageIdentifier {
    hash: Vec<u8>,
    size: usize,
    executable: bool,
}

impl View for StorageIdentifier {
    type V = IdView;

    closed spec fn view(&self) -> IdView {
        IdView { hash: self.hash@, size: self.size as nat, executable: self.executable }
    }
}

/// Appends the hexadecimal digits of `bytes` to an empty buffer.
fn to_hex(bytes: &[u8]) -> (out: Vec<u8>)
    requires
        bytes@.len() <= DIGEST_LEN,
    ensures
        out@ == hex(bytes@),
        forall|i: int| 0 <= i < out@.len() ==> is_hex_digit(#[trigger] out@[i]),
{
    let mut out: Vec<u8> = Vec::new();
    let mut i: usize = 0;
    while i < bytes.len()
        invariant
            i <= bytes@.len() <= DIGEST_LEN,
            out@.len() == 2 * i,
            forall|k: int| 0 <= k < out@.len() ==> #[trigger] out@[k] == hex(bytes@)[k],
            forall|k: int| 0 <= k < out@.len() ==> is_hex_digit(#[trigger] out@[k]),
        decreases bytes@.len() - i,
    {
        let b: u8 = bytes[i];
        let hi: u8 = b / 16;
        let lo: u8 = b % 16;
        out.push(digit(hi));
        out.push(digit(lo));
        i = i + 1;
    }
    assert(out@ =~= hex(bytes@));
    out
}

/// The hexadecimal digit of a value below sixteen.
fn digit(n: u8) -> (d: u8)
    requires
        n < 16,
    ensures
        d == hex_digit(n as int),
        is_hex_digit(d),
{
    if n < 10 {
        48 + n
    } else {
        87 + n
    }
}

/// Appends the decimal digits of `n` to `out`.
fn push_decimal(out: &mut Vec<u8>, n: usize)
    ensures
        final(out)@ == old(out)@ + decimal(n as nat),
    decreases n,
{
    if n >= 10 {
        push_decimal(out, n / 10);
    }
    let d: u8 = (n % 10) as u8;
    out.push(48 + d);
    assert(final(out)@ =~= old(out)@ + decimal(n as nat));
}

/// Appends `src` to `out`.
pub(crate) fn push_all(out: &mut Vec<u8>, src: &[u8])
    ensures
        final(out)@ == old(out)@ + src@,
{
    let mut i: usize = 0;
    while i < src.len()
        invariant
            i <= src@.len(),
            out@ == old(out)@ + src@.subrange(0, i as int),
        decreases src@.len() - i,
    {
        out.push(src[i]);
        i = i + 1;
        assert(out@ =~= old(out)@ + src@.subrange(0, i as int));
    }
    assert(src@.subrange(0, i as int) =~= src@);
}

/// Whether two byte strings are equal.
pub(crate) fn bytes_eq(a: &[u8], b: &[u8]) -> (r: bool)
    ensures
        r == (a@ == b@),
{
    if a.len() != b.len() {
        return false;
    }
    let mut i: usize = 0;
    while i < a.len()
        invariant
            i <= a@.len(),
            a@.len() == b@.len(),
            forall|k: int| 0 <= k < i ==> a@[k] == b@[k],
        decreases a@.len() - i,
    {
        if a[i] != b[i] {
            return false;
        }
        i = i + 1;
    }
    assert(a@ =~= b@);
    true
}

impl StorageIdentifier {
    /// Every identifier has a hash of the shape of a SHA-256 digest in
    /// hexadecimal.
    #[verifier::type_invariant]
    spec fn well_formed(&self) -> bool {
        is_hash(self.hash@)
    }


    /// The identifier with these three parts, if `hash` has the shape of a
    /// SHA-256 digest in lower-case hexadecimal.
    pub fn new(hash: Vec<u8>, size: usize, executable: bool) -> (r: Option<Self>)
        ensures
            r is Some <==> is_hash(hash@),
            r is Some ==> r->Some_0@ == (IdView { hash: hash@, size: size as nat, executable }),
    {
        if hash.len() != HASH_LEN {
            return None;
        }
        let mut i: usize = 0;
        while i < hash.len()
            invariant
                i <= hash@.len(),
                hash@.len() == HASH_LEN,
                forall|k: int| 0 <= k < i ==> is_hex_digit(#[trigger] hash@[k]),
            decreases hash@.len() - i,
        {
            let b: u8 = hash[i];
            if !((48 <= b && b <= 57) || (97 <= b && b <= 102)) {
                return None;
            }
            i = i + 1;
        }
        Some(StorageIdentifier { hash, size, executable })
    }

    /// The identifier of a blob of `size` bytes whose SHA-256 digest is
    /// `digest`.
    pub fn from_digest(digest: &[u8], size: usize, executable: bool) -> (id: Self)
        requires
            digest@.len() == DIGEST_LEN,
        ensures
            id@ == identifier_from_digest(digest@, size as nat, executable),
            is_hash(id@.hash),
    {
        let hash = to_hex(digest);
        StorageIdentifier { hash, size, executable }
    }

    /// The identifier of a blob with the given bytes: their SHA-256 digest,
    /// their number, and the flag as given.
    pub fn compute(bytes: &[u8], executable: bool) -> (id: Self)
        ensures
            id@ == identifier_of(bytes@, executable),
            is_hash(id@.hash),
    {
        let digest = sha256_digest(bytes);
        Self::from_digest(digest.as_slice(), bytes.len(), executable)
    }

    /// The hash, in lower-case hexadecimal.
    pub fn hash(&self) -> (h: &Vec<u8>)
        ensures
            h@ == self@.hash,
            is_hash(h@),
    {
        proof {
            use_type_invariant(self);
        }
        &self.hash
    }

    /// The length of the blob in bytes.
    pub fn size(&self) -> (n: usize)
        ensures
            n == self@.size,
    {
        self.size
    }

    /// Whether the blob is executable.
    pub fn executable(&self) -> (x: bool)
        ensures
            x == self@.executable,
    {
        self.executable
    }

    /// Whether two identifiers name the same blob: all three parts agree.
    pub fn same_as(&self, other: &StorageIdentifier) -> (r: bool)
        ensures
            r == (self@ == other@),
    {
        let r = self.size == other.size && self.executable == other.executable && bytes_eq(
            self.hash.as_slice(),
            other.hash.as_slice(),
        );
        proof {
            if self@ == other@ {
                assert(self.hash@ == other.hash@);
            }
        }
        r
    }

    /// A copy of the identifier.
    pub fn duplicate(&self) -> (id: Self)
        ensures
            id@ == self@,
    {
        let mut hash: Vec<u8> = Vec::new();
        push_all(&mut hash, self.hash.as_slice());
        assert(hash@ =~= self.hash@);
        proof {
            use_type_invariant(self);
        }
        StorageIdentifier { hash, size: self.size, executable: self.executable }
    }

    /// The path of the blob under the storage root `base`.
    pub fn filename(&self, base: &[u8]) -> (path: Vec<u8>)
        ensures
            path@ == blob_path(base@, self@),
    {
        proof {
            use_type_invariant(self);
        }
        let mut path: Vec<u8> = Vec::new();
        push_all(&mut path, base);
        path.push(SEPARATOR);
        path.push(100u8);
        path.push(97u8);
        path.push(116u8);
        path.push(97u8);
        path.push(SEPARATOR);
        path.push(self.hash[0]);
        path.push(self.hash[1]);
        path.push(SEPARATOR);
        path.push(self.hash[2]);
        path.push(self.hash[3]);
        path.push(SEPARATOR);
        let mut i: usize = 4;
        let ghost before = path@;
        while i < self.hash.len()
            invariant
                4 <= i <= self.hash@.len(),
                path@ == before + self.hash@.subrange(4, i as int),
            decreases self.hash@.len() - i,
        {
            path.push(self.hash[i]);
            i = i + 1;
            assert(path@ =~= before + self.hash@.subrange(4, i as int));
        }
        path.push(DASH);
        push_decimal(&mut path, self.size);
        if self.executable {
            path.push(EXECUTABLE_MARK);
        }
        assert(path@ =~= blob_path(base@, self@));
        path
    }
}

impl PartialEq for StorageIdentifier {
    /// Two identifiers are equal when all three parts agree.
    fn eq(&self, other: &Self) -> (r: bool) {
        self.same_as(other)
    }
}

impl Eq for StorageIdentifier {

}

impl vstd::std_specs::cmp::PartialEqSpecImpl for StorageIdentifier {
    open spec fn obeys_eq_spec() -> bool {
        true
    }

    open spec fn eq_spec(&self, other: &Self) -> bool {
        self@ == other@
    }
}

/// Equal bytes and equal flags give equal identifiers, and equal identifiers
/// lie at equal paths under one root.
pub proof fn lemma_identifier_pure(
    bytes_a: Seq<u8>,
    executable_a: bool,
    bytes_b: Seq<u8>,
    executable_b: bool,
    base: Seq<u8>,
)
    requires
        bytes_a == bytes_b,
        executable_a == executable_b,
    ensures
        identifier_of(bytes_a, executable_a) == identifier_of(bytes_b, executable_b),
        blob_path(base, identifier_of(bytes_a, executable_a)) == blob_path(
            base,
            identifier_of(bytes_b, executable_b),
        ),
{
}

proof fn lemma_decimal_digits(n: nat)
    ensures
        decimal(n).len() >= 1,
        n >= 10 ==> decimal(n).len() >= 2,
        forall|i: int| 0 <= i < decimal(n).len() ==> 48 <= #[trigger] decimal(n)[i] <= 57,
    decreases n,
{
    if n >= 10 {
        lemma_decimal_digits(n / 10);
    }
}

/// Different numbers have different decimal digits.
pub proof fn lemma_decimal_injective(a: nat, b: nat)
    requires
        decimal(a) == decimal(b),
    ensures
        a == b,
    decreases a,
{
    lemma_decimal_digits(a);
    lemma_decimal_digits(b);
    if a >= 10 && b >= 10 {
        assert(decimal(a).drop_last() =~= decimal(a / 10));
        assert(decimal(b).drop_last() =~= decimal(b / 10));
        lemma_decimal_injective(a / 10, b / 10);
        assert(decimal(a).last() == (48 + a % 10) as u8);
        assert(decimal(b).last() == (48 + b % 10) as u8);
    } else if a < 10 && b < 10 {
        assert(decimal(a)[0] == (48 + a) as u8);
        assert(decimal(b)[0] == (48 + b) as u8);
    }
}

/// The part of a blob's path that ends with the dash.
spec fn path_head(base: Seq<u8>, hash: Seq<u8>) -> Seq<u8> {
    base + seq![SEPARATOR] + data_dir() + seq![SEPARATOR] + hash.subrange(0, 2) + seq![SEPARATOR]
        + hash.subrange(2, 4) + seq![SEPARATOR] + hash.subrange(4, hash.len() as int) + seq![DASH]
}

/// The part of a blob's path that follows the dash.
spec fn path_tail(id: IdView) -> Seq<u8> {
    decimal(id.size) + if id.executable {
        seq![EXECUTABLE_MARK]
    } else {
        Seq::<u8>::empty()
    }
}

/// Under one root, different identifiers lie at different paths: what is
/// stored at a path is the blob of one identifier only.
pub proof fn lemma_blob_path_injective(base: Seq<u8>, a: IdView, b: IdView)
    requires
        is_hash(a.hash),
        is_hash(b.hash),
        blob_path(base, a) == blob_path(base, b),
    ensures
        a == b,
{
    let head_a = path_head(base, a.hash);
    let head_b = path_head(base, b.hash);
    let tail_a = path_tail(a);
    let tail_b = path_tail(b);
    let n = base.len() + 73;
    assert(blob_path(base, a) =~= head_a + tail_a);
    assert(blob_path(base, b) =~= head_b + tail_b);
    assert(head_a.len() == n && head_b.len() == n);
    assert(head_a =~= (head_a + tail_a).take(n as int));
    assert(head_b =~= (head_b + tail_b).take(n as int));
    assert(tail_a =~= (head_a + tail_a).skip(n as int));
    assert(tail_b =~= (head_b + tail_b).skip(n as int));
    let off = base.len() + 6;
    assert forall|i: int| 0 <= i < 64 implies a.hash[i] == b.hash[i] by {
        let at = if i < 2 {
            off + i
        } else if i < 4 {
            off + 1 + i
        } else {
            off + 2 + i
        };
        assert(head_a[at] == a.hash[i]);
        assert(head_b[at] == b.hash[i]);
    }
    assert(a.hash =~= b.hash);
    lemma_decimal_digits(a.size);
    lemma_decimal_digits(b.size);
    assert(tail_a.last() == tail_b.last());
    if a.executable {
        assert(tail_a.last() == EXECUTABLE_MARK);
    } else {
        assert(tail_a.last() == decimal(a.size).last());
    }
    if b.executable {
        assert(tail_b.last() == EXECUTABLE_MARK);
    } else {
        assert(tail_b.last() == decimal(b.size).last());
    }
    assert(a.executable == b.executable);
    assert(decimal(a.size) =~= tail_a.take(decimal(a.size).len() as int));
    assert(decimal(b.size) =~= tail_b.take(decimal(b.size).len() as int));
    lemma_decimal_injective(a.size, b.size);
}

/// The largest number of bytes the text of an index may have: one mebibyte.
pub const MAX_METADATA_SIZE: u64 = 1048576;

/// The bytes of the word `indices`, the directory of the indices.
pub open spec fn indices_dir() -> Seq<u8> {
    seq![105u8, 110u8, 100u8, 105u8, 99u8, 101u8, 115u8]
}

/// The directory of the blobs under the storage root `base`.
pub open spec fn data_path(base: Seq<u8>) -> Seq<u8> {
    base + seq![SEPARATOR] + data_dir()
}

/// The directory of the indices under the storage root `base`.
pub open spec fn indices_path(base: Seq<u8>) -> Seq<u8> {
    base + seq![SEPARATOR] + indices_dir()
}

/// The file of the index `name` under the storage root `base`.
pub open spec fn index_path(base: Seq<u8>, name: Seq<u8>) -> Seq<u8> {
    indices_path(base) + seq![SEPARATOR] + name
}

/// The directory that holds the blob of an identifier.
pub open spec fn shard_path(base: Seq<u8>, id: IdView) -> Seq<u8> {
    data_path(base) + seq![SEPARATOR] + id.hash.subrange(0, 2) + seq![SEPARATOR]
        + id.hash.subrange(2, 4)
}

/// The file that a file at `target` is written to before it is renamed.
pub open spec fn temp_path(target: Seq<u8>) -> Seq<u8> {
    target + temp_suffix()
}

/// Appends `.tmp` to a copy of `target`.
fn with_temp_suffix(target: &Vec<u8>) -> (temp: Vec<u8>)
    ensures
        temp@ == temp_path(target@),
{
    let mut temp: Vec<u8> = Vec::new();
    push_all(&mut temp, target.as_slice());
    temp.push(46u8);
    temp.push(116u8);
    temp.push(109u8);
    temp.push(112u8);
    assert(temp@ =~= temp_path(target@));
    temp
}

/// What storing a blob found when it looked for the blob's file.
#[derive(Debug)]
pub enum BlobStat {
    /// The file is there.
    Present,
    /// No such file.
    Missing,
    /// Looking failed for another reason, given as text.
    Failed(String),
}

/// The steps of storing a blob that can fail.
#[derive(Debug)]
pub enum BlobStage {
    /// Making the directories that hold the blob.
    MakeDirectories,
    /// Writing the temporary file and renaming it.
    Write,
}

/// Where a blob goes: its identifier, its file, the directory of that file,
/// and the temporary file it is written to first.
#[derive(Debug)]
pub struct BlobPlan {
    pub identity: StorageIdentifier,
    pub directory: Vec<u8>,
    pub target: Vec<u8>,
    pub temp: Vec<u8>,
}

impl BlobPlan {
    /// The plan for storing `bytes` under the storage root `base`.
    pub fn new(base: &[u8], bytes: &[u8], executable: bool) -> (plan: Self)
        ensures
            plan.identity@ == identifier_of(bytes@, executable),
            plan.directory@ == shard_path(base@, plan.identity@),
            plan.target@ == blob_path(base@, plan.identity@),
            plan.temp@ == temp_path(plan.target@),
    {
        let identity = StorageIdentifier::compute(bytes, executable);
        Self::for_identifier(base, identity)
    }

    /// The plan for storing the blob that `identity` names under the storage
    /// root `base`.
    pub fn for_identifier(base: &[u8], identity: StorageIdentifier) -> (plan: Self)
        ensures
            plan.identity == identity,
            plan.directory@ == shard_path(base@, identity@),
            plan.target@ == blob_path(base@, identity@),
            plan.temp@ == temp_path(plan.target@),
    {
        let target = identity.filename(base);
        let temp = with_temp_suffix(&target);
        let hash = identity.hash();
        let mut directory: Vec<u8> = Vec::new();
        push_all(&mut directory, base);
        directory.push(SEPARATOR);
        directory.push(100u8);
        directory.push(97u8);
        directory.push(116u8);
        directory.push(97u8);
        directory.push(SEPARATOR);
        directory.push(hash[0]);
        directory.push(hash[1]);
        directory.push(SEPARATOR);
        directory.push(hash[2]);
        directory.push(hash[3]);
        assert(directory@ =~= shard_path(base@, identity@));
        BlobPlan { identity, directory, target, temp }
    }

    /// Whether the blob has to be written, given what looking for its file
    /// found: not if the file is there, since equal names mean equal bytes.
    /// A failure to look is reported against the blob's file.
    pub fn must_write(&self, stat: BlobStat) -> (r: Result<bool, Error>)
        ensures
            match stat {
                BlobStat::Present => r == Ok::<bool, Error>(false),
                BlobStat::Missing => r == Ok::<bool, Error>(true),
                BlobStat::Failed(cause) => r is Err && r->Err_0@
                    == Failure::IOErrorAddingToStorage(self.target@, cause@),
            },
    {
        match stat {
            BlobStat::Present => Ok(false),
            BlobStat::Missing => Ok(true),
            BlobStat::Failed(cause) => {
                let mut path: Vec<u8> = Vec::new();
                push_all(&mut path, self.target.as_slice());
                Err(Error::IOErrorAddingToStorage(path, cause))
            },
        }
    }

    /// The error for a failure at `stage`: against the blob's file where the
    /// directories could not be made, against the temporary file where it
    /// could not be written or renamed.
    pub fn failure(&self, stage: BlobStage, cause: String) -> (e: Error)
        ensures
            e@ == Failure::IOErrorAddingToStorage(
                match stage {
                    BlobStage::MakeDirectories => self.target@,
                    BlobStage::Write => self.temp@,
                },
                cause@,
            ),
    {
        let mut path: Vec<u8> = Vec::new();
        match stage {
            BlobStage::MakeDirectories => push_all(&mut path, self.target.as_slice()),
            BlobStage::Write => push_all(&mut path, self.temp.as_slice()),
        }
        Error::IOErrorAddingToStorage(path, cause)
    }
}

/// An index in memory: its tree, and whether it differs from what is on disk.
#[derive(Debug)]
struct InMemoryIndex {
    name: Vec<u8>,
    dir: Directory,
    dirty: bool,
}

/// What a storage knows of an index: its tree and whether it is to be
/// written.
pub struct IndexView {
    pub tree: Map<Seq<u8>, Node>,
    pub dirty: bool,
}

/// Where the text of an index is written: to `temp` first, which must not
/// exist, then renamed to `target`.
#[derive(Debug)]
pub struct SavePlan {
    pub target: Vec<u8>,
    pub temp: Vec<u8>,
}

/// The steps of writing an index that can fail.
#[derive(Debug)]
pub enum SaveStage {
    /// Creating, writing and flushing the temporary file.
    Write,
    /// Renaming the temporary file to the index file.
    Rename,
}

impl SavePlan {
    /// The error for a failure at `stage`: against the temporary file where
    /// it could not be written, against the index file where the rename
    /// failed. After a failed rename the temporary file is to be removed.
    pub fn failure(&self, stage: SaveStage, cause: String) -> (e: Error)
        ensures
            e@ == Failure::WritingIndex(
                match stage {
                    SaveStage::Write => self.temp@,
                    SaveStage::Rename => self.target@,
                },
                cause@,
            ),
    {
        let mut path: Vec<u8> = Vec::new();
        match stage {
            SaveStage::Write => push_all(&mut path, self.temp.as_slice()),
            SaveStage::Rename => push_all(&mut path, self.target.as_slice()),
        }
        Error::WritingIndex(path, cause)
    }
}

/// A storage: its root and its indices by name.
#[derive(Debug)]
pub struct SharedStorage {
    base: Vec<u8>,
    indices: Vec<InMemoryIndex>,
}

/// Whether an index of that name is among the records.
spec fn has_index(records: Seq<InMemoryIndex>, name: Seq<u8>) -> bool {
    exists|i: int| 0 <= i < records.len() && (#[trigger] records[i]).name@ == name
}

/// The position of the index of that name among the records.
spec fn position(records: Seq<InMemoryIndex>, name: Seq<u8>) -> int {
    choose|i: int| 0 <= i < records.len() && (#[trigger] records[i]).name@ == name
}

/// No two records have one name, and every tree is well-formed.
spec fn records_wf(records: Seq<InMemoryIndex>) -> bool {
    &&& forall|i: int, j: int|
        0 <= i < j < records.len() ==> (#[trigger] records[i]).name@ != (#[trigger] records[j]).name@
    &&& forall|i: int| 0 <= i < records.len() ==> (#[trigger] records[i]).dir.wf()
}

/// The records as a map from names to indices.
spec fn records_view(records: Seq<InMemoryIndex>) -> Map<Seq<u8>, IndexView> {
    Map::new(
        |name: Seq<u8>| has_index(records, name),
        |name: Seq<u8>|
            IndexView {
                tree: records[position(records, name)].dir@,
                dirty: records[position(records, name)].dirty,
            },
    )
}

proof fn lemma_record_at(records: Seq<InMemoryIndex>, i: int)
    requires
        records_wf(records),
        0 <= i < records.len(),
    ensures
        has_index(records, records[i].name@),
        position(records, records[i].name@) == i,
        records_view(records)[records[i].name@] == (IndexView {
            tree: records[i].dir@,
            dirty: records[i].dirty,
        }),
{
    let name = records[i].name@;
    assert(has_index(records, name));
    let j = position(records, name);
    assert(records[j].name@ == name);
    if j < i {
        assert(records[j].name@ != records[i].name@);
    }
    if i < j {
        assert(records[i].name@ != records[j].name@);
    }
}

proof fn lemma_record_count(records: Seq<InMemoryIndex>)
    requires
        records_wf(records),
    ensures
        records_view(records).dom().finite(),
        records_view(records).dom().len() == records.len(),
    decreases records.len(),
{
    if records.len() > 0 {
        let rest = records.drop_last();
        let last = records.last().name@;
        assert(records_wf(rest)) by {
            assert forall|i: int, j: int| 0 <= i < j < rest.len() implies (#[trigger] rest[i]).name@
                != (#[trigger] rest[j]).name@ by {
                assert(records[i].name@ != records[j].name@);
            }
            assert forall|i: int| 0 <= i < rest.len() implies (#[trigger] rest[i]).dir.wf() by {
                assert(records[i].dir.wf());
            }
        }
        lemma_record_count(rest);
        assert forall|n: Seq<u8>| has_index(records, n) <==> (has_index(rest, n) || n == last) by {
            if has_index(records, n) {
                let k = position(records, n);
                if k < rest.len() {
                    assert(rest[k].name@ == n);
                }
            }
            if has_index(rest, n) {
                let k = position(rest, n);
                assert(records[k].name@ == n);
            }
            if n == last {
                assert(records[records.len() - 1].name@ == n);
            }
        }
        if has_index(rest, last) {
            let k = position(rest, last);
            assert(records[k].name@ != records[records.len() - 1].name@);
        }
        assert(records_view(records).dom() =~= records_view(rest).dom().insert(last));
    } else {
        assert(records_view(records).dom() =~= Set::<Seq<u8>>::empty());
    }
}

impl View for SharedStorage {
    type V = Map<Seq<u8>, IndexView>;

    closed spec fn view(&self) -> Map<Seq<u8>, IndexView> {
        records_view(self.indices@)
    }
}

impl SharedStorage {
    /// No index is there twice, and every tree is well-formed.
    pub closed spec fn wf(&self) -> bool {
        records_wf(self.indices@)
    }

    /// The root of the storage.
    pub closed spec fn root(&self) -> Seq<u8> {
        self.base@
    }

    /// A storage at `base` with no indices.
    pub fn new(base: Vec<u8>) -> (storage: Self)
        ensures
            storage.wf(),
            storage.root() == base@,
            storage@ == Map::<Seq<u8>, IndexView>::empty(),
    {
        let storage = SharedStorage { base, indices: Vec::new() };
        assert(storage@ =~= Map::<Seq<u8>, IndexView>::empty());
        storage
    }

    /// The root of the storage.
    pub fn base(&self) -> (base: &Vec<u8>)
        ensures
            base@ == self.root(),
    {
        &self.base
    }

    /// The directories a storage needs: its root, the directory of the blobs
    /// and the directory of the indices, in the order in which to make them.
    pub fn prepare_paths(&self) -> (paths: Vec<Vec<u8>>)
        ensures
            paths@.len() == 3,
            paths@[0]@ == self.root(),
            paths@[1]@ == data_path(self.root()),
            paths@[2]@ == indices_path(self.root()),
    {
        let mut root: Vec<u8> = Vec::new();
        push_all(&mut root, self.base.as_slice());
        assert(root@ =~= self.base@);
        let mut data: Vec<u8> = Vec::new();
        push_all(&mut data, self.base.as_slice());
        data.push(SEPARATOR);
        data.push(100u8);
        data.push(97u8);
        data.push(116u8);
        data.push(97u8);
        assert(data@ =~= data_path(self.base@));
        let indices = self.indices_directory();
        let mut paths: Vec<Vec<u8>> = Vec::new();
        paths.push(root);
        paths.push(data);
        paths.push(indices);
        paths
    }

    /// The directory of the indices.
    pub fn indices_directory(&self) -> (path: Vec<u8>)
        ensures
            path@ == indices_path(self.root()),
    {
        let mut path: Vec<u8> = Vec::new();
        push_all(&mut path, self.base.as_slice());
        path.push(SEPARATOR);
        path.push(105u8);
        path.push(110u8);
        path.push(100u8);
        path.push(105u8);
        path.push(99u8);
        path.push(101u8);
        path.push(115u8);
        assert(path@ =~= indices_path(self.base@));
        path
    }

    /// The file of the index `name`.
    pub fn index_file(&self, name: &[u8]) -> (path: Vec<u8>)
        ensures
            path@ == index_path(self.root(), name@),
    {
        let mut path = self.indices_directory();
        path.push(SEPARATOR);
        push_all(&mut path, name);
        assert(path@ =~= index_path(self.base@, name@));
        path
    }

    /// Whether an entry of the directory of the indices is to be read as an
    /// index: only a regular file is, and one over the size limit is an
    /// error.
    pub fn admit_index_file(&self, name: &[u8], is_file: bool, len: u64) -> (r: Result<
        bool,
        Error,
    >)
        ensures
            if !is_file {
                r == Ok::<bool, Error>(false)
            } else if len <= MAX_METADATA_SIZE {
                r == Ok::<bool, Error>(true)
            } else {
                r is Err && r->Err_0@ == Failure::IndexTooLarge(
                    index_path(self.root(), name@),
                    len,
                )
            },
    {
        if !is_file {
            Ok(false)
        } else if len > MAX_METADATA_SIZE {
            Err(Error::IndexTooLarge(self.index_file(name), len))
        } else {
            Ok(true)
        }
    }

    /// The position of the index `name`, if the storage has it.
    fn find(&self, name: &[u8]) -> (r: Option<usize>)
        requires
            self.wf(),
        ensures
            match r {
                Some(i) => i < self.indices@.len() && self.indices@[i as int].name@ == name@,
                None => true,
            },
            r is Some <==> self@.contains_key(name@),
    {
        let mut i: usize = 0;
        while i < self.indices.len()
            invariant
                i <= self.indices@.len(),
                forall|k: int| 0 <= k < i ==> (#[trigger] self.indices@[k]).name@ != name@,
            decreases self.indices@.len() - i,
        {
            if bytes_eq(self.indices[i].name.as_slice(), name) {
                assert(has_index(self.indices@, name@));
                return Some(i);
            }
            i = i + 1;
        }
        None
    }

    /// Whether the storage has an index `name`.
    pub fn has(&self, name: &[u8]) -> (r: bool)
        requires
            self.wf(),
        ensures
            r == self@.contains_key(name@),
    {
        self.find(name).is_some()
    }

    /// The number of indices.
    pub fn len(&self) -> (n: usize)
        ensures
            n == self.names().len(),
            self.wf() ==> self@.dom().finite() && n == self@.dom().len(),
    {
        proof {
            if self.wf() {
                lemma_record_count(self.indices@);
            }
        }
        self.indices.len()
    }

    /// The names of the indices, in the order in which `name_at` gives them.
    pub closed spec fn names(&self) -> Seq<Seq<u8>> {
        Seq::new(self.indices@.len(), |i: int| self.indices@[i].name@)
    }

    /// The name of the index at position `i`.
    pub fn name_at(&self, i: usize) -> (name: &Vec<u8>)
        requires
            self.wf(),
            i < self.names().len(),
        ensures
            name@ == self.names()[i as int],
            self@.contains_key(name@),
    {
        proof {
            lemma_record_at(self.indices@, i as int);
        }
        &self.indices[i].name
    }

    /// The tree of the index `name`.
    pub fn index(&self, name: &[u8]) -> (r: Option<&Directory>)
        requires
            self.wf(),
        ensures
            r is Some <==> self@.contains_key(name@),
            r is Some ==> r->Some_0@ == self@[name@].tree && r->Some_0.wf(),
    {
        match self.find(name) {
            Some(i) => {
                proof {
                    lemma_record_at(self.indices@, i as int);
                }
                Some(&self.indices[i].dir)
            },
            None => None,
        }
    }

    /// Whether the index `name` differs from what is on disk.
    pub fn is_dirty(&self, name: &[u8]) -> (r: bool)
        requires
            self.wf(),
        ensures
            r == (self@.contains_key(name@) && self@[name@].dirty),
    {
        match self.find(name) {
            Some(i) => {
                proof {
                    lemma_record_at(self.indices@, i as int);
                }
                self.indices[i].dirty
            },
            None => false,
        }
    }

    /// Puts the index `name` with the tree `dir` into the storage, in the
    /// place of any index of that name: as read from disk where `dirty` is
    /// not set, as the result of an import, still to be written, where it
    /// is.
    pub fn insert(&mut self, name: Vec<u8>, dir: Directory, dirty: bool)
        requires
            old(self).wf(),
            dir.wf(),
        ensures
            final(self).wf(),
            final(self).root() == old(self).root(),
            final(self)@ == old(self)@.insert(name@, IndexView { tree: dir@, dirty }),
    {
        let record = InMemoryIndex { name, dir, dirty };
        let ghost before = self.indices@;
        match self.find(record.name.as_slice()) {
            Some(i) => {
                self.indices[i] = record;
                let ghost after = self.indices@;
                assert forall|n: Seq<u8>| has_index(after, n) <==> has_index(before, n) by {
                    if has_index(after, n) {
                        let k = position(after, n);
                        assert(before[k].name@ == n);
                    }
                    if has_index(before, n) {
                        let k = position(before, n);
                        assert(after[k].name@ == n);
                    }
                }
                assert forall|k: int, l: int| 0 <= k < l < after.len() implies (
                #[trigger] after[k]).name@ != (#[trigger] after[l]).name@ by {
                    assert(before[k].name@ != before[l].name@);
                }
                assert forall|k: int| 0 <= k < after.len() implies (#[trigger] after[k]).dir.wf() by {
                    if k != i {
                        assert(before[k].dir.wf());
                    }
                }
                assert forall|n: Seq<u8>| has_index(after, n) implies #[trigger] records_view(
                    after,
                )[n] == old(self)@.insert(name@, IndexView { tree: dir@, dirty })[n] by {
                    let k = position(after, n);
                    lemma_record_at(after, k);
                    lemma_record_at(before, k);
                }
                assert(self@ =~= old(self)@.insert(name@, IndexView { tree: dir@, dirty }));
            },
            None => {
                self.indices.push(record);
                let ghost after = self.indices@;
                assert forall|n: Seq<u8>| has_index(after, n) <==> (has_index(before, n) || n
                    == name@) by {
                    if has_index(after, n) {
                        let k = position(after, n);
                        if k < before.len() {
                            assert(before[k].name@ == n);
                        }
                    }
                    if has_index(before, n) {
                        let k = position(before, n);
                        assert(after[k].name@ == n);
                    }
                    if n == name@ {
                        assert(after[before.len() as int].name@ == n);
                    }
                }
                assert forall|k: int, l: int| 0 <= k < l < after.len() implies (
                #[trigger] after[k]).name@ != (#[trigger] after[l]).name@ by {
                    if l < before.len() {
                        assert(before[k].name@ != before[l].name@);
                    } else {
                        assert(before[k].name@ == after[k].name@);
                        if before[k].name@ == name@ {
                            assert(has_index(before, name@));
                        }
                    }
                }
                assert forall|k: int| 0 <= k < after.len() implies (#[trigger] after[k]).dir.wf() by {
                    if k < before.len() {
                        assert(before[k].dir.wf());
                    }
                }
                assert forall|n: Seq<u8>| has_index(after, n) implies #[trigger] records_view(
                    after,
                )[n] == old(self)@.insert(name@, IndexView { tree: dir@, dirty })[n] by {
                    let k = position(after, n);
                    lemma_record_at(after, k);
                    if k < before.len() {
                        lemma_record_at(before, k);
                    }
                }
                assert(self@ =~= old(self)@.insert(name@, IndexView { tree: dir@, dirty }));
            },
        }
    }

    /// What is to be done to save the index `name`, whose text is `len`
    /// bytes long: nothing if it is on disk as it is in memory; else the text
    /// is written to the plan's temporary file and renamed to its target,
    /// unless it is over the size limit.
    pub fn save_index(&self, name: &[u8], len: usize) -> (r: Result<Option<SavePlan>, Error>)
        requires
            self.wf(),
            self@.contains_key(name@),
        ensures
            if !self@[name@].dirty {
                r is Ok && r->Ok_0 is None
            } else if len <= MAX_METADATA_SIZE {
                &&& r is Ok
                &&& r->Ok_0 is Some
                &&& r->Ok_0->Some_0.target@ == index_path(self.root(), name@)
                &&& r->Ok_0->Some_0.temp@ == temp_path(index_path(self.root(), name@))
            } else {
                r is Err && r->Err_0@ == Failure::IndexTooLarge(name@, len as u64)
            },
    {
        if !self.is_dirty(name) {
            Ok(None)
        } else if len as u64 > MAX_METADATA_SIZE {
            let mut copy: Vec<u8> = Vec::new();
            push_all(&mut copy, name);
            assert(copy@ =~= name@);
            Err(Error::IndexTooLarge(copy, len as u64))
        } else {
            let target = self.index_file(name);
            let temp = with_temp_suffix(&target);
            Ok(Some(SavePlan { target, temp }))
        }
    }

    /// The names of the indices.
    pub fn indices(&self) -> (names: Vec<Vec<u8>>)
        requires
            self.wf(),
        ensures
            names@.len() == self.names().len(),
            forall|i: int| 0 <= i < names@.len() ==> (#[trigger] names@[i])@ == self.names()[i],
            forall|i: int| 0 <= i < names@.len() ==> self@.contains_key((#[trigger] names@[i])@),
    {
        let mut names: Vec<Vec<u8>> = Vec::new();
        let mut i: usize = 0;
        while i < self.indices.len()
            invariant
                self.wf(),
                i <= self.indices@.len(),
                names@.len() == i,
                forall|k: int| 0 <= k < i ==> (#[trigger] names@[k])@ == self.names()[k],
                forall|k: int| 0 <= k < i ==> self@.contains_key((#[trigger] names@[k])@),
            decreases self.indices@.len() - i,
        {
            let name = self.name_at(i);
            let mut copy: Vec<u8> = Vec::new();
            push_all(&mut copy, name.as_slice());
            assert(copy@ =~= name@);
            names.push(copy);
            i = i + 1;
        }
        names
    }

    /// Takes what an import has built as the index `name`, still to be
    /// written, in the place of any index of that name. A failed import
    /// leaves the storage as it was and its failure is handed on.
    pub fn import<T>(&mut self, name: Vec<u8>, import: Import<T>) -> (r: Result<(), Error>)
        requires
            old(self).wf(),
            import.wf(),
        ensures
            final(self).wf(),
            final(self).root() == old(self).root(),
            match import.model().failure {
                None => r is Ok && final(self)@ == old(self)@.insert(
                    name@,
                    IndexView { tree: import.model().tree, dirty: true },
                ),
                Some(failure) => r is Err && r->Err_0@ == failure && final(self)@ == old(self)@,
            },
    {
        match import.finish() {
            Ok(root) => {
                self.insert(name, root, true);
                Ok(())
            },
            Err(e) => Err(e),
        }
    }

    /// Records that the index `name` is on disk as it is in memory.
    pub fn mark_saved(&mut self, name: &[u8])
        requires
            old(self).wf(),
            old(self)@.contains_key(name@),
        ensures
            final(self).wf(),
            final(self).root() == old(self).root(),
            final(self)@ == old(self)@.insert(
                name@,
                IndexView { tree: old(self)@[name@].tree, dirty: false },
            ),
    {
        let ghost before = self.indices@;
        match self.find(name) {
            Some(i) => {
                proof {
                    lemma_record_at(before, i as int);
                }
                self.indices[i].dirty = false;
                let ghost after = self.indices@;
                assert(after.len() == before.len());
                assert forall|k: int| 0 <= k < after.len() implies (#[trigger] after[k]).name@
                    == before[k].name@ && after[k].dir == before[k].dir by {}
                assert forall|n: Seq<u8>| has_index(after, n) <==> has_index(before, n) by {
                    if has_index(after, n) {
                        let k = position(after, n);
                        assert(before[k].name@ == n);
                    }
                    if has_index(before, n) {
                        let k = position(before, n);
                        assert(after[k].name@ == n);
                    }
                }
                assert forall|k: int, l: int| 0 <= k < l < after.len() implies (
                #[trigger] after[k]).name@ != (#[trigger] after[l]).name@ by {
                    assert(before[k].name@ != before[l].name@);
                }
                assert forall|k: int| 0 <= k < after.len() implies (#[trigger] after[k]).dir.wf() by {
                    assert(before[k].dir.wf());
                }
                assert forall|n: Seq<u8>| has_index(after, n) implies #[trigger] records_view(
                    after,
                )[n] == old(self)@.insert(
                    name@,
                    IndexView { tree: old(self)@[name@].tree, dirty: false },
                )[n] by {
                    let k = position(after, n);
                    lemma_record_at(after, k);
                    lemma_record_at(before, k);
                }
                assert(self@ =~= old(self)@.insert(
                    name@,
                    IndexView { tree: old(self)@[name@].tree, dirty: false },
                ));
            },
            None => {},
        }
    }

    /// Takes the index `name` out of the storage, if it is there.
    pub fn remove(&mut self, name: &[u8])
        requires
            old(self).wf(),
        ensures
            final(self).wf(),
            final(self).root() == old(self).root(),
            final(self)@ == old(self)@.remove(name@),
    {
        let ghost before = self.indices@;
        match self.find(name) {
            Some(i) => {
                proof {
                    lemma_record_at(before, i as int);
                }
                let _ = self.indices.remove(i);
                let ghost after = self.indices@;
                assert(after =~= before.remove(i as int));
                assert forall|k: int| 0 <= k < after.len() implies (#[trigger] after[k])
                    == before[if k < i { k } else { k + 1 }] by {}
                assert forall|n: Seq<u8>| has_index(after, n) <==> (has_index(before, n) && n
                    != name@) by {
                    if has_index(after, n) {
                        let k = position(after, n);
                        let kb = if k < i { k } else { k + 1 };
                        assert(before[kb].name@ == n);
                        lemma_record_at(before, kb);
                    }
                    if has_index(before, n) && n != name@ {
                        let k = position(before, n);
                        let ka = if k < i { k } else { k - 1 };
                        assert(after[ka].name@ == n);
                    }
                }
                assert forall|k: int, l: int| 0 <= k < l < after.len() implies (
                #[trigger] after[k]).name@ != (#[trigger] after[l]).name@ by {
                    let kb = if k < i { k } else { k + 1 };
                    let lb = if l < i { l } else { l + 1 };
                    assert(before[kb].name@ != before[lb].name@);
                }
                assert forall|k: int| 0 <= k < after.len() implies (#[trigger] after[k]).dir.wf() by {
                    let kb = if k < i { k } else { k + 1 };
                    assert(before[kb].dir.wf());
                }
                assert forall|n: Seq<u8>| has_index(after, n) implies #[trigger] records_view(
                    after,
                )[n] == old(self)@.remove(name@)[n] by {
                    let k = position(after, n);
                    let kb = if k < i { k } else { k + 1 };
                    lemma_record_at(after, k);
                    lemma_record_at(before, kb);
                }
                assert(self@ =~= old(self)@.remove(name@));
            },
            None => {
                assert(self@ =~= old(self)@.remove(name@));
            },
        }
    }
}

} // verus!
