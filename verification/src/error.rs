//! What can go wrong inside the store, apart from reading and writing files.

use vstd::prelude::*;
use vstd::string::*;

verus! {

/// A failure of a staging operation that the store itself detects.
#[derive(Clone, Copy, Debug, PartialEq, Eq, Structural)]
pub enum StoreError {
    /// The control area is missing: the repository was never initialized.
    NotARepository,
    /// The persisted index is not a JSON object of strings.
    Parse,
    /// The index could not be written out as JSON that reads back as the
    /// same index.
    Serialize,
}

impl StoreError {
    /// The message shown for each failure.
    pub open spec fn text(self) -> Seq<char> {
        match self {
            StoreError::NotARepository => "Not a mini-git repo (missing .minigit). Run `mini-git init` first."@,
            StoreError::Parse => "parsing index.json as JSON"@,
            StoreError::Serialize => "serializing index to JSON"@,
        }
    }

    /// A one-line description of the failure, fit to show to the user.
    pub fn message(&self) -> (text: String)
        ensures
            text@ == self.text(),
    {
        match self {
            StoreError::NotARepository => String::from_str(
                "Not a mini-git repo (missing .minigit). Run `mini-git init` first.",
            ),
            StoreError::Parse => String::from_str("parsing index.json as JSON"),
            StoreError::Serialize => String::from_str("serializing index to JSON"),
        }
    }
}

} // verus!
