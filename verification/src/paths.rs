//! Where the repository keeps its state, and how a staged path is named.
//!
//! Paths are handled as text. Joining and prefix stripping are left to
//! `std::path`, so that separators and roots are read as the platform reads
//! them; which path names an entry is decided here.

use std::path::Path;
use vstd::prelude::*;
use vstd::string::*;

verus! {

/// Whether `std::path::Path::is_absolute` holds of `path`, on the platform
/// that the crate is built for.
pub uninterp spec fn path_is_absolute(path: Seq<char>) -> bool;

/// What `std::path::Path::join` makes of `base` and `path`, on the platform
/// that the crate is built for.
pub uninterp spec fn path_join(base: Seq<char>, path: Seq<char>) -> Seq<char>;

/// What `std::path::Path::strip_prefix` leaves of `path` once `base` is taken
/// off its front, or `None` where `base` is no prefix of it, on the platform
/// that the crate is built for.
pub uninterp spec fn path_strip_prefix(path: Seq<char>, base: Seq<char>) -> Option<Seq<char>>;

/// Calls `std::path::Path::is_absolute`.
///
/// Trusted: the answer depends on the text of the path alone.
#[verifier::external_body]
fn is_absolute(path: &str) -> (absolute: bool)
    ensures
        absolute == path_is_absolute(path@),
{
    Path::new(path).is_absolute()
}

/// Calls `std::path::Path::join` and hands the joined path back as text.
///
/// Trusted: the joined path depends on the two texts alone.
#[verifier::external_body]
fn join(base: &str, path: &str) -> (joined: String)
    ensures
        joined@ == path_join(base@, path@),
{
    Path::new(base).join(path).to_string_lossy().into_owned()
}

/// Calls `std::path::Path::strip_prefix` and hands the remainder back as text.
///
/// Trusted: whether `base` is a prefix, and the remainder if it is, depend on
/// the two texts alone.
#[verifier::external_body]
fn strip_prefix(path: &str, base: &str) -> (rest: Option<String>)
    ensures
        match rest {
            Some(tail) => path_strip_prefix(path@, base@) == Some(tail@),
            None => path_strip_prefix(path@, base@) is None,
        },
{
    match Path::new(path).strip_prefix(base) {
        Ok(tail) => Some(tail.to_string_lossy().into_owned()),
        Err(_) => None,
    }
}

/// Name of the control area, relative to the repository root.
pub open spec fn repo_dir_name() -> Seq<char> {
    ".minigit"@
}

/// Location of the blob storage area.
pub open spec fn objects_dir_name() -> Seq<char> {
    path_join(repo_dir_name(), "objects"@)
}

/// Location of the staging index.
pub open spec fn index_path_name() -> Seq<char> {
    path_join(repo_dir_name(), "index.json"@)
}

/// Location reserved for the commit log.
pub open spec fn commits_path_name() -> Seq<char> {
    path_join(repo_dir_name(), "commits.jsonl"@)
}

/// Location of the blob with the given digest.
pub open spec fn object_path_name(blob_id: Seq<char>) -> Seq<char> {
    path_join(objects_dir_name(), blob_id)
}

/// The control area: `.minigit` under the repository root.
pub fn repo_dir() -> (dir: String)
    ensures
        dir@ == repo_dir_name(),
{
    String::from_str(".minigit")
}

/// The blob storage area: `objects` inside the control area.
pub fn objects_dir() -> (dir: String)
    ensures
        dir@ == objects_dir_name(),
{
    join(repo_dir().as_str(), "objects")
}

/// The staging index: `index.json` inside the control area.
pub fn index_path() -> (path: String)
    ensures
        path@ == index_path_name(),
{
    join(repo_dir().as_str(), "index.json")
}

/// Reserved for the commit log: `commits.jsonl` inside the control area.
/// Nothing in this crate reads or writes it.
pub fn commits_path() -> (path: String)
    ensures
        path@ == commits_path_name(),
{
    join(repo_dir().as_str(), "commits.jsonl")
}

/// Where the blob with digest `blob_id` is kept: a file named by the digest
/// inside the blob storage area.
pub fn object_path(blob_id: &str) -> (path: String)
    ensures
        path@ == object_path_name(blob_id@),
{
    join(objects_dir().as_str(), blob_id)
}

/// `path` itself where it is absolute, else `path` resolved against `cwd`.
pub open spec fn absolute_path(path: Seq<char>, cwd: Seq<char>) -> Seq<char> {
    if path_is_absolute(path) {
        path
    } else {
        path_join(cwd, path)
    }
}

/// The remainder where there is one, else the absolute path unchanged.
pub open spec fn relative_or_absolute(absolute: Seq<char>, stripped: Option<Seq<char>>) -> Seq<
    char,
> {
    match stripped {
        Some(rest) => rest,
        None => absolute,
    }
}

/// The name under which `path` is indexed when the repository root is `cwd`.
pub open spec fn repo_relative(path: Seq<char>, cwd: Seq<char>) -> Seq<char> {
    let absolute = absolute_path(path, cwd);
    relative_or_absolute(absolute, path_strip_prefix(absolute, cwd))
}

/// Chooses the index key once the prefix has been tried: the part below the
/// root where the path lies under it, and the absolute path as it stands where
/// it does not.
pub fn pick_relative(absolute: String, stripped: Option<String>) -> (key: String)
    ensures
        key@ == relative_or_absolute(
            absolute@,
            match stripped {
                Some(rest) => Some(rest@),
                None => None,
            },
        ),
{
    match stripped {
        Some(rest) => rest,
        None => absolute,
    }
}

/// Names `path` relative to the repository root `cwd`.
///
/// A relative `path` is first resolved against `cwd`. A path that does not lie
/// under `cwd` keeps its absolute form.
pub fn to_repo_relative(path: &str, cwd: &str) -> (key: String)
    ensures
        key@ == repo_relative(path@, cwd@),
{
    let absolute = if is_absolute(path) {
        String::from_str(path)
    } else {
        join(cwd, path)
    };
    let stripped = strip_prefix(absolute.as_str(), cwd);
    pick_relative(absolute, stripped)
}

} // verus!
