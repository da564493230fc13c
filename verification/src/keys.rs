//! Key naming: namespaced, versioned cache keys.
//!
//! Every key carries the generator's namespace prefix and two version
//! integers, the repository identifier, and the fixed-size path digest; the
//! three key shapes (point, list root, list chunk) are kept apart
//! structurally, so distinct logical keys never collide.

use vstd::prelude::*;

use blake2::Digest;

verus! {

/// Name for the fixed-size path digest computed by the outside hash
/// function.  The digest is a pure function of the path bytes alone.
pub uninterp spec fn digest_of(path: Seq<u8>) -> Seq<u8>;

/// Relies on `blake2::Blake2b512` through the `Digest` trait: the digest
/// depends on the input bytes alone and is 64 bytes long.
#[verifier::external_body]
fn blake2b_digest(path: &Vec<u8>) -> (r: Vec<u8>)
    ensures
        r@ == digest_of(path@),
        r@.len() == 64,
{
    let mut hasher = blake2::Blake2b512::new();
    hasher.update(path.as_slice());
    hasher.finalize().to_vec()
}

/// Fixed-size digest of a repository path, bounding key size regardless of
/// path depth.
#[derive(Debug)]
pub struct PathHash {
    pub digest: Vec<u8>,
}

impl View for PathHash {
    type V = Seq<u8>;

    open spec fn view(&self) -> Seq<u8> {
        self.digest@
    }
}

impl PathHash {
    /// Digest a repository path; the empty byte sequence stands for the
    /// repository root, and is hashed like any other path.  The digest is
    /// always 64 bytes, bounding key size regardless of path depth.
    pub fn from_repo_path(repo_path: &Vec<u8>) -> (r: Self)
        ensures
            r@ == digest_of(repo_path@),
            r@.len() == 64,
    {
        PathHash { digest: blake2b_digest(repo_path) }
    }
}

/// Key generator configuration: namespace prefix and the two cache version
/// integers.  Immutable after construction.
pub struct KeyGen {
    pub prefix: Vec<u8>,
    pub codever: u32,
    pub sitever: u32,
}

/// Mathematical model of a key generator.
pub struct KeyGenView {
    pub prefix: Seq<u8>,
    pub codever: u32,
    pub sitever: u32,
}

impl View for KeyGen {
    type V = KeyGenView;

    open spec fn view(&self) -> KeyGenView {
        KeyGenView { prefix: self.prefix@, codever: self.codever, sitever: self.sitever }
    }
}

impl KeyGen {
    pub fn new(prefix: Vec<u8>, codever: u32, sitever: u32) -> (r: Self)
        ensures
            r@.prefix == prefix@,
            r@.codever == codever,
            r@.sitever == sitever,
    {
        KeyGen { prefix, codever, sitever }
    }
}

/// A cache key.  The three shapes are distinct variants, so a point key, a
/// list-root key and a list-chunk key can never be confused, and two keys
/// with different repositories, digests, versions or pointers differ.
pub enum CacheKey {
    Point {
        prefix: Vec<u8>,
        codever: u32,
        sitever: u32,
        repo_id: i32,
        filenode: u64,
        digest: Vec<u8>,
    },
    Root { prefix: Vec<u8>, codever: u32, sitever: u32, repo_id: i32, digest: Vec<u8> },
    Chunk {
        prefix: Vec<u8>,
        codever: u32,
        sitever: u32,
        repo_id: i32,
        digest: Vec<u8>,
        pointer: i64,
    },
}

/// Mathematical model of a cache key.
pub enum CacheKeyView {
    Point {
        prefix: Seq<u8>,
        codever: u32,
        sitever: u32,
        repo_id: i32,
        filenode: u64,
        digest: Seq<u8>,
    },
    Root { prefix: Seq<u8>, codever: u32, sitever: u32, repo_id: i32, digest: Seq<u8> },
    Chunk {
        prefix: Seq<u8>,
        codever: u32,
        sitever: u32,
        repo_id: i32,
        digest: Seq<u8>,
        pointer: i64,
    },
}

impl View for CacheKey {
    type V = CacheKeyView;

    open spec fn view(&self) -> CacheKeyView {
        match self {
            CacheKey::Point { prefix, codever, sitever, repo_id, filenode, digest } =>
                CacheKeyView::Point {
                    prefix: prefix@,
                    codever: *codever,
                    sitever: *sitever,
                    repo_id: *repo_id,
                    filenode: *filenode,
                    digest: digest@,
                },
            CacheKey::Root { prefix, codever, sitever, repo_id, digest } => CacheKeyView::Root {
                prefix: prefix@,
                codever: *codever,
                sitever: *sitever,
                repo_id: *repo_id,
                digest: digest@,
            },
            CacheKey::Chunk { prefix, codever, sitever, repo_id, digest, pointer } =>
                CacheKeyView::Chunk {
                    prefix: prefix@,
                    codever: *codever,
                    sitever: *sitever,
                    repo_id: *repo_id,
                    digest: digest@,
                    pointer: *pointer,
                },
        }
    }
}

/// The point key for one record of one revision of one path.
pub open spec fn point_key(gen: KeyGenView, repo_id: i32, filenode: u64, digest: Seq<u8>)
    -> CacheKeyView {
    CacheKeyView::Point {
        prefix: gen.prefix,
        codever: gen.codever,
        sitever: gen.sitever,
        repo_id,
        filenode,
        digest,
    }
}

/// The root key for the full history list of one path.
pub open spec fn root_key(gen: KeyGenView, repo_id: i32, digest: Seq<u8>) -> CacheKeyView {
    CacheKeyView::Root {
        prefix: gen.prefix,
        codever: gen.codever,
        sitever: gen.sitever,
        repo_id,
        digest,
    }
}

/// The chunk key for one pointer of one chunked history list.
pub open spec fn chunk_key(gen: KeyGenView, repo_id: i32, digest: Seq<u8>, pointer: i64)
    -> CacheKeyView {
    CacheKeyView::Chunk {
        prefix: gen.prefix,
        codever: gen.codever,
        sitever: gen.sitever,
        repo_id,
        digest,
        pointer,
    }
}

/// `k` is a chunk key of exactly this repository and path digest.
pub open spec fn chunk_family(k: CacheKeyView, gen: KeyGenView, repo_id: i32, digest: Seq<u8>)
    -> bool {
    exists|p: i64| k == chunk_key(gen, repo_id, digest, p)
}

/// The keys a list fill for `(gen, repo_id, digest)` may touch: the list
/// root and the list chunks of exactly that repository and path digest.
pub open spec fn list_family(k: CacheKeyView, gen: KeyGenView, repo_id: i32, digest: Seq<u8>)
    -> bool {
    ||| k == root_key(gen, repo_id, digest)
    ||| chunk_family(k, gen, repo_id, digest)
}

pub(crate) fn bytes_eq(a: &Vec<u8>, b: &Vec<u8>) -> (r: bool)
    ensures
        r == (a@ == b@),
{
    if a.len() != b.len() {
        return false;
    }
    let mut i: usize = 0;
    while i < a.len()
        invariant
            i <= a@.len(),
            a@.len() == b@.len(),
            forall|j: int| 0 <= j < i ==> a@[j] == b@[j],
        decreases a@.len() - i,
    {
        if a[i] != b[i] {
            return false;
        }
        i = i + 1;
    }
    assert(a@ =~= b@);
    true
}

pub(crate) fn clone_bytes(a: &Vec<u8>) -> (r: Vec<u8>)
    ensures
        r@ == a@,
{
    let mut out: Vec<u8> = Vec::new();
    let mut i: usize = 0;
    while i < a.len()
        invariant
            i <= a@.len(),
            out@ == a@.take(i as int),
        decreases a@.len() - i,
    {
        out.push(a[i]);
        assert(out@ =~= a@.take(i as int + 1));
        i = i + 1;
    }
    assert(a@.take(a@.len() as int) =~= a@);
    out
}

pub(crate) fn key_eq(a: &CacheKey, b: &CacheKey) -> (r: bool)
    ensures
        r == (a@ == b@),
{
    match (a, b) {
        (
            CacheKey::Point { prefix: pa, codever: ca, sitever: sa, repo_id: ra, filenode: fa, digest: da },
            CacheKey::Point { prefix: pb, codever: cb, sitever: sb, repo_id: rb, filenode: fb, digest: db },
        ) => *ca == *cb && *sa == *sb && *ra == *rb && *fa == *fb && bytes_eq(pa, pb) && bytes_eq(
            da,
            db,
        ),
        (
            CacheKey::Root { prefix: pa, codever: ca, sitever: sa, repo_id: ra, digest: da },
            CacheKey::Root { prefix: pb, codever: cb, sitever: sb, repo_id: rb, digest: db },
        ) => *ca == *cb && *sa == *sb && *ra == *rb && bytes_eq(pa, pb) && bytes_eq(da, db),
        (
            CacheKey::Chunk { prefix: pa, codever: ca, sitever: sa, repo_id: ra, digest: da, pointer: qa },
            CacheKey::Chunk { prefix: pb, codever: cb, sitever: sb, repo_id: rb, digest: db, pointer: qb },
        ) => *ca == *cb && *sa == *sb && *ra == *rb && *qa == *qb && bytes_eq(pa, pb) && bytes_eq(
            da,
            db,
        ),
        _ => false,
    }
}

/// Build the point key for `(repository, revision, path digest)`.
pub fn get_mc_key_for_single_filenode(
    keygen: &KeyGen,
    repo_id: i32,
    filenode: u64,
    path_hash: &PathHash,
) -> (k: CacheKey)
    ensures
        k@ == point_key(keygen@, repo_id, filenode, path_hash@),
{
    CacheKey::Point {
        prefix: clone_bytes(&keygen.prefix),
        codever: keygen.codever,
        sitever: keygen.sitever,
        repo_id,
        filenode,
        digest: clone_bytes(&path_hash.digest),
    }
}

/// Build the list-root key for `(repository, path digest)`.
pub fn get_mc_key_for_filenodes_list(keygen: &KeyGen, repo_id: i32, path_hash: &PathHash) -> (k:
    CacheKey)
    ensures
        k@ == root_key(keygen@, repo_id, path_hash@),
{
    CacheKey::Root {
        prefix: clone_bytes(&keygen.prefix),
        codever: keygen.codever,
        sitever: keygen.sitever,
        repo_id,
        digest: clone_bytes(&path_hash.digest),
    }
}

/// Build the chunk key for `(repository, path digest, pointer)`.
pub fn get_mc_key_for_filenodes_list_chunk(
    keygen: &KeyGen,
    repo_id: i32,
    path_hash: &PathHash,
    pointer: i64,
) -> (k: CacheKey)
    ensures
        k@ == chunk_key(keygen@, repo_id, path_hash@, pointer),
{
    CacheKey::Chunk {
        prefix: clone_bytes(&keygen.prefix),
        codever: keygen.codever,
        sitever: keygen.sitever,
        repo_id,
        digest: clone_bytes(&path_hash.digest),
        pointer,
    }
}

} // verus!
