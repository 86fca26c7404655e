//! A content-addressed staging store.
//!
//! File contents are identified by their SHA-1 digest, written as forty
//! lowercase hexadecimal characters. Each distinct content is stored once, as
//! a blob named by its digest. The staging index maps repository-relative
//! paths to the digest of the content most recently staged under each path.
//!
//! Nothing here touches the file system: the functions take what was read from
//! disk as plain values and hand back what is to be written.

pub mod command;
pub mod error;
pub mod hash;
pub mod index;
pub mod json;
pub mod order;
pub mod paths;
pub mod stage;
pub mod tree;
pub mod walk;

pub use command::{
    add_action, begin_add, cmd_init, ensure_repo, finish_add, AddAction, Added, InitAction,
};
pub use error::StoreError;
pub use hash::{hex_encode, sha1_hex, MAX_CONTENT_BYTES};
pub use index::Index;
pub use json::{load_index, save_index};
pub use paths::{
    commits_path, index_path, object_path, objects_dir, pick_relative, repo_dir, to_repo_relative,
};
pub use stage::{put, stage_file, Blob, PutAction};
pub use walk::{path_kind, walkdir, DirEntry, PathKind, Walk};
