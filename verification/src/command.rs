//! The decisions of the two commands, `init` and `add`.
//!
//! A command alternates between looking at the file system and deciding what
//! to do next. The decisions are here: the caller looks at the disk, tells
//! what it found, and carries out what it is told.

use crate::error::StoreError;
use crate::index::Index;
use crate::json::{content, load_index, loaded, save_index, saved};
use crate::paths::{index_path, index_path_name, objects_dir, objects_dir_name};
use crate::stage::Repo;
use crate::walk::PathKind;
use vstd::prelude::*;

verus! {

/// Checks that the control area exists, which every staging operation needs.
pub fn ensure_repo(control_exists: bool) -> (outcome: Result<(), StoreError>)
    ensures
        outcome == if control_exists {
            Ok::<(), StoreError>(())
        } else {
            Err::<(), StoreError>(StoreError::NotARepository)
        },
{
    if !control_exists {
        return Err(StoreError::NotARepository);
    }
    Ok(())
}

/// What `add` does with one of its arguments.
#[derive(Clone, Copy, Debug, PartialEq, Eq, Structural)]
pub enum AddAction {
    /// Walk the directory and stage every regular file below it.
    Expand,
    /// Stage the file.
    Stage,
    /// Warn that the path was not found and go on with the next argument.
    Skip,
}

/// Directories are expanded, regular files are staged, anything else is
/// skipped without failing the command.
pub open spec fn action_for(kind: PathKind) -> AddAction {
    match kind {
        PathKind::Directory => AddAction::Expand,
        PathKind::File => AddAction::Stage,
        PathKind::Neither => AddAction::Skip,
    }
}

/// Decides what `add` does with an argument of the given kind.
pub fn add_action(kind: PathKind) -> (action: AddAction)
    ensures
        action == action_for(kind),
{
    match kind {
        PathKind::Directory => AddAction::Expand,
        PathKind::File => AddAction::Stage,
        PathKind::Neither => AddAction::Skip,
    }
}

/// What `add` starts from: the index as persisted, provided that the control
/// area exists. A missing control area is reported before the index is looked
/// at.
pub open spec fn add_begins(control_exists: bool, persisted: Option<Seq<u8>>) -> Result<
    Map<Seq<char>, Seq<char>>,
    StoreError,
> {
    if control_exists {
        loaded(persisted)
    } else {
        Err(StoreError::NotARepository)
    }
}

/// Opens a staging operation: checks that the repository is initialized and
/// loads its index in full.
pub fn begin_add(control_exists: bool, persisted: Option<&[u8]>) -> (outcome: Result<
    Index,
    StoreError,
>)
    ensures
        match outcome {
            Ok(index) => add_begins(control_exists, content(persisted)) == Ok::<
                Map<Seq<char>, Seq<char>>,
                StoreError,
            >(index@),
            Err(e) => add_begins(control_exists, content(persisted)) == Err::<
                Map<Seq<char>, Seq<char>>,
                StoreError,
            >(e),
        },
{
    match ensure_repo(control_exists) {
        Err(e) => Err(e),
        Ok(()) => load_index(persisted),
    }
}

/// The result of a staging operation.
#[derive(Debug)]
pub struct Added {
    /// The text to replace the index file with, in full.
    pub text: Vec<u8>,
    /// How many paths are staged now.
    pub staged: usize,
}

/// Closes a staging operation: writes the whole index out, once, and counts
/// the paths that are staged.
pub fn finish_add(index: &Index) -> (outcome: Result<Added, StoreError>)
    ensures
        match outcome {
            Ok(added) => saved(index@) == Ok::<Seq<u8>, StoreError>(added.text@) && added.staged
                == index@.len() && loaded(Some(added.text@)) == Ok::<
                Map<Seq<char>, Seq<char>>,
                StoreError,
            >(index@),
            Err(e) => saved(index@) == Err::<Seq<u8>, StoreError>(e),
        },
{
    match save_index(index) {
        Err(e) => Err(e),
        Ok(text) => Ok(Added { text, staged: index.len() }),
    }
}

/// What `init` asks of the caller.
#[derive(Debug)]
pub enum InitAction {
    /// The control area is there already: nothing is to be touched.
    AlreadyPresent,
    /// Create the control area.
    Create {
        /// The blob storage area, to be created together with the control
        /// area that holds it.
        objects: String,
        /// The index file.
        index: String,
        /// The text of an empty index, to be written to the index file.
        text: Vec<u8>,
    },
}

/// An [`InitAction`] as the values it carries.
pub ghost enum InitPlan {
    AlreadyPresent,
    Create { objects: Seq<char>, index: Seq<char>, text: Seq<u8> },
}

impl View for InitAction {
    type V = InitPlan;

    open spec fn view(&self) -> InitPlan {
        match self {
            InitAction::AlreadyPresent => InitPlan::AlreadyPresent,
            InitAction::Create { objects, index, text } => InitPlan::Create {
                objects: objects@,
                index: index@,
                text: text@,
            },
        }
    }
}

/// What `init` decides: nothing where the control area exists, else the
/// creation of the storage area and of an empty index.
pub open spec fn init_plan(control_exists: bool) -> Result<InitPlan, StoreError> {
    if control_exists {
        Ok(InitPlan::AlreadyPresent)
    } else {
        match saved(Map::empty()) {
            Ok(text) => Ok(
                InitPlan::Create { objects: objects_dir_name(), index: index_path_name(), text },
            ),
            Err(e) => Err(e),
        }
    }
}

/// Initializes a repository, unless there is one already.
///
/// Running it on an initialized repository is no error: it reports that the
/// control area is present and asks for nothing to be written.
pub fn cmd_init(control_exists: bool) -> (outcome: Result<InitAction, StoreError>)
    ensures
        match outcome {
            Ok(action) => init_plan(control_exists) == Ok::<InitPlan, StoreError>(action@),
            Err(e) => init_plan(control_exists) == Err::<InitPlan, StoreError>(e),
        },
        control_exists ==> outcome matches Ok(InitAction::AlreadyPresent),
{
    if control_exists {
        return Ok(InitAction::AlreadyPresent);
    }
    let empty = Index::new();
    match save_index(&empty) {
        Err(e) => Err(e),
        Ok(text) => Ok(InitAction::Create { objects: objects_dir(), index: index_path(), text }),
    }
}

/// The repository once the caller has carried out `plan`. `None` stands for a
/// directory without a control area.
pub open spec fn carried_out(world: Option<Repo>, plan: InitPlan) -> Option<Repo> {
    match plan {
        InitPlan::AlreadyPresent => world,
        InitPlan::Create { objects, index, text } => Some(
            Repo {
                blobs: Map::empty(),
                index: match loaded(Some(text)) {
                    Ok(entries) => entries,
                    Err(_) => Map::empty(),
                },
            },
        ),
    }
}

/// The repository after `init` has run. Where `init` fails, nothing was
/// written.
pub open spec fn after_init(world: Option<Repo>) -> Option<Repo> {
    match init_plan(world is Some) {
        Ok(plan) => carried_out(world, plan),
        Err(_) => world,
    }
}

/// `init` leaves an initialized repository exactly as it found it, blobs and
/// index alike; so running it a second time changes nothing. Where it creates
/// a repository, the store and the index are empty.
pub proof fn lemma_init_is_idempotent(world: Option<Repo>)
    ensures
        world is Some ==> after_init(world) == world,
        after_init(after_init(world)) == after_init(world),
        world is None && init_plan(false) is Ok ==> after_init(world) == Some(
            Repo { blobs: Map::empty(), index: Map::empty() },
        ),
{
}

} // verus!
