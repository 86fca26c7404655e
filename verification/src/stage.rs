//! Staging one file: its content becomes a blob named by its digest, and its
//! path is entered in the index under that digest.
//!
//! The blob store lives on disk, so whether a blob is already there is asked
//! by the caller and told to [`put`], which decides whether to write. What the
//! store and the index hold after a staging is stated over [`Repo`].

use crate::hash::{digestible, hex_digest, is_digest_text, sha1_hex};
use crate::index::Index;
use crate::paths::{object_path, object_path_name, repo_relative, to_repo_relative};
use vstd::prelude::*;

verus! {

/// What to do with the bytes of a blob.
#[derive(Clone, Copy, Debug, PartialEq, Eq, Structural)]
pub enum PutAction {
    /// No object is stored under the digest yet: write the bytes there.
    Write,
    /// An object is stored under the digest: leave it as it is.
    Skip,
}

/// Blobs are written once: an object that exists is never written again.
pub open spec fn put_action(exists: bool) -> PutAction {
    if exists {
        PutAction::Skip
    } else {
        PutAction::Write
    }
}

/// Decides whether the bytes of a blob are to be written, given whether an
/// object already exists under its digest.
///
/// An existing object is trusted to hold the same bytes: it is neither read
/// nor compared.
pub fn put(exists: bool) -> (action: PutAction)
    ensures
        action == put_action(exists),
{
    if exists {
        PutAction::Skip
    } else {
        PutAction::Write
    }
}

/// The blob that staged content goes to.
#[derive(Debug)]
pub struct Blob {
    /// The digest of the content, which is the name of the blob.
    pub blob_id: String,
    /// Where the blob is kept: the file named by the digest in the blob
    /// storage area.
    pub object: String,
}

/// Stages the file at `path`, whose content is `data`, in a repository rooted
/// at `cwd`: enters the path, named relative to the root, in `index` with the
/// digest of the content, and says which blob the content belongs in.
///
/// The index is changed in memory only. The caller stores the blob as [`put`]
/// decides, and persists the index once all files of a batch are staged.
pub fn stage_file(path: &str, cwd: &str, data: &[u8], index: &mut Index) -> (blob: Blob)
    requires
        digestible(data@),
    ensures
        blob.blob_id@ == hex_digest(data@),
        is_digest_text(blob.blob_id@),
        blob.object@ == object_path_name(hex_digest(data@)),
        final(index)@ == old(index)@.insert(repo_relative(path@, cwd@), hex_digest(data@)),
{
    let blob_id = sha1_hex(data);
    let object = object_path(blob_id.as_str());
    let key = to_repo_relative(path, cwd);
    index.insert(key, blob_id.clone());
    Blob { blob_id, object }
}

/// What a repository holds: the stored blobs by digest, and the index.
pub ghost struct Repo {
    pub blobs: Map<Seq<char>, Seq<u8>>,
    pub index: Map<Seq<char>, Seq<char>>,
}

/// The blob store after `bytes` were put under `blob_id`.
pub open spec fn stored(blobs: Map<Seq<char>, Seq<u8>>, blob_id: Seq<char>, bytes: Seq<u8>) -> Map<
    Seq<char>,
    Seq<u8>,
> {
    match put_action(blobs.contains_key(blob_id)) {
        PutAction::Write => blobs.insert(blob_id, bytes),
        PutAction::Skip => blobs,
    }
}

/// The repository after content `data` was staged under the index key `key`.
pub open spec fn staged(repo: Repo, key: Seq<char>, data: Seq<u8>) -> Repo {
    Repo {
        blobs: stored(repo.blobs, hex_digest(data), data),
        index: repo.index.insert(key, hex_digest(data)),
    }
}

/// Putting a blob never changes or removes an object that is already stored.
pub proof fn lemma_put_keeps_objects(
    blobs: Map<Seq<char>, Seq<u8>>,
    blob_id: Seq<char>,
    bytes: Seq<u8>,
)
    ensures
        blobs.submap_of(stored(blobs, blob_id, bytes)),
        stored(blobs, blob_id, bytes).dom() == blobs.dom().insert(blob_id),
        stored(stored(blobs, blob_id, bytes), blob_id, bytes) == stored(blobs, blob_id, bytes),
{
    assert(stored(blobs, blob_id, bytes).dom() =~= blobs.dom().insert(blob_id));
}

/// Staging the same content under two paths stores one object for both: the
/// second staging writes nothing, and both paths are indexed with the digest
/// of the content. In a store that was empty, that object is the only one.
pub proof fn lemma_same_content_is_stored_once(
    repo: Repo,
    first: Seq<char>,
    second: Seq<char>,
    data: Seq<u8>,
)
    requires
        first != second,
    ensures
        ({
            let once = staged(repo, first, data);
            let twice = staged(once, second, data);
            &&& twice.blobs == once.blobs
            &&& twice.blobs.dom() == repo.blobs.dom().insert(hex_digest(data))
            &&& twice.index.contains_key(first) && twice.index[first] == hex_digest(data)
            &&& twice.index.contains_key(second) && twice.index[second] == hex_digest(data)
            &&& repo.blobs == Map::<Seq<char>, Seq<u8>>::empty() ==> twice.blobs.dom() == set![
                hex_digest(data),
            ] && twice.blobs.len() == 1
        }),
{
    let once = staged(repo, first, data);
    let twice = staged(once, second, data);
    lemma_put_keeps_objects(repo.blobs, hex_digest(data), data);
    if repo.blobs == Map::<Seq<char>, Seq<u8>>::empty() {
        assert(twice.blobs.dom() =~= set![hex_digest(data)]);
    }
}

/// Staging a path again replaces its entry: the path stays indexed once, now
/// with the digest of the later content, and no other entry changes. The store
/// keeps the blob of the earlier content beside that of the later one.
pub proof fn lemma_restaging_overwrites(
    repo: Repo,
    key: Seq<char>,
    earlier: Seq<u8>,
    later: Seq<u8>,
)
    ensures
        ({
            let twice = staged(staged(repo, key, earlier), key, later);
            &&& twice.index == repo.index.insert(key, hex_digest(later))
            &&& twice.index.dom() == repo.index.dom().insert(key)
            &&& twice.index[key] == hex_digest(later)
            &&& twice.blobs.contains_key(hex_digest(earlier))
            &&& twice.blobs.contains_key(hex_digest(later))
            &&& repo.blobs.submap_of(twice.blobs)
            &&& !repo.blobs.contains_key(hex_digest(earlier)) ==> twice.blobs[hex_digest(earlier)]
                == earlier
            &&& !repo.blobs.contains_key(hex_digest(later)) && hex_digest(later) != hex_digest(
                earlier,
            ) ==> twice.blobs[hex_digest(later)] == later
        }),
{
    let once = staged(repo, key, earlier);
    let twice = staged(once, key, later);
    assert(twice.index =~= repo.index.insert(key, hex_digest(later)));
    assert(twice.index.dom() =~= repo.index.dom().insert(key));
}

/// Staging the same content under the same path a second time changes
/// nothing: no new object, no new entry.
pub proof fn lemma_restaging_same_content_changes_nothing(
    repo: Repo,
    key: Seq<char>,
    data: Seq<u8>,
)
    ensures
        staged(staged(repo, key, data), key, data) == staged(repo, key, data),
{
    let once = staged(repo, key, data);
    let twice = staged(once, key, data);
    assert(twice.index =~= once.index);
    assert(twice.blobs =~= once.blobs);
}

} // verus!
