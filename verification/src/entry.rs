//! The record kept for one tracked file.

use vstd::prelude::*;
use vstd::std_specs::cmp::PartialEqSpecImpl;
use crate::text::same_text;

verus! {

/// What a reconciliation pass decided for a file.
///
/// The tag is only meaningful for the pass that set it: it drives the next
/// request to the remote store and is settled to [`Action::Pass`] once both
/// sides agree.
#[derive(Clone, Copy, Debug, PartialEq, Eq, Structural)]
pub enum Action {
    /// The file is new to the baseline.
    Create,
    /// The file's content changed since the baseline.
    Edit,
    /// The file is gone from disk and the remote has not confirmed it yet.
    Delete,
    /// The file is settled: nothing to send.
    Pass,
}

/// The name under which an action is written in persisted and transmitted
/// records.
pub open spec fn action_name(action: Action) -> Seq<char> {
    match action {
        Action::Create => "create"@,
        Action::Edit => "edit"@,
        Action::Delete => "delete"@,
        Action::Pass => "pass"@,
    }
}

/// The action that a name stands for, if it is one of the four names.
pub open spec fn action_named(name: Seq<char>) -> Option<Action> {
    if name == "create"@ {
        Some(Action::Create)
    } else if name == "edit"@ {
        Some(Action::Edit)
    } else if name == "delete"@ {
        Some(Action::Delete)
    } else if name == "pass"@ {
        Some(Action::Pass)
    } else {
        None
    }
}

/// Reading back the name of an action gives that action.
pub proof fn lemma_action_name_round_trip(action: Action)
    ensures
        action_named(action_name(action)) == Some(action),
{
    reveal_strlit("create");
    reveal_strlit("edit");
    reveal_strlit("delete");
    reveal_strlit("pass");
    assert("create"@.len() == 6 && "delete"@.len() == 6);
    assert("edit"@.len() == 4 && "pass"@.len() == 4);
    assert("create"@[0] == 'c' && "delete"@[0] == 'd');
    assert("edit"@[0] == 'e' && "pass"@[0] == 'p');
}

impl Action {
    /// The name of this action in records.
    pub fn name(self) -> (name: &'static str)
        ensures
            name@ == action_name(self),
    {
        match self {
            Action::Create => "create",
            Action::Edit => "edit",
            Action::Delete => "delete",
            Action::Pass => "pass",
        }
    }

    /// Reads an action from its name; `None` for any other text.
    pub fn from_name(name: &str) -> (action: Option<Action>)
        ensures
            action == action_named(name@),
    {
        if same_text(name, "create") {
            Some(Action::Create)
        } else if same_text(name, "edit") {
            Some(Action::Edit)
        } else if same_text(name, "delete") {
            Some(Action::Delete)
        } else if same_text(name, "pass") {
            Some(Action::Pass)
        } else {
            None
        }
    }
}

/// Mathematical value of a [`FileEntry`].
pub struct EntrySpec {
    pub filename: Seq<char>,
    pub hash: Seq<char>,
    pub version: nat,
    pub action: Action,
}

/// One row of a state mapping: a path relative to the sync root, the digest
/// of the content last seen there, the version of that content, and the
/// action of the current pass.
#[derive(Debug)]
pub struct FileEntry {
    pub filename: String,
    pub hash: String,
    pub version: u64,
    pub action: Action,
}

impl View for FileEntry {
    type V = EntrySpec;

    open spec fn view(&self) -> EntrySpec {
        EntrySpec {
            filename: self.filename@,
            hash: self.hash@,
            version: self.version as nat,
            action: self.action,
        }
    }
}

impl PartialEq for FileEntry {
    fn eq(&self, other: &FileEntry) -> (same: bool) {
        self.filename == other.filename && self.hash == other.hash && self.version == other.version
            && self.action == other.action
    }
}

impl PartialEqSpecImpl for FileEntry {
    open spec fn obeys_eq_spec() -> bool {
        true
    }

    open spec fn eq_spec(&self, other: &FileEntry) -> bool {
        self.filename@ == other.filename@ && self.hash@ == other.hash@ && self.version
            == other.version && self.action == other.action
    }
}

impl Clone for FileEntry {
    fn clone(&self) -> (copy: FileEntry)
        ensures
            copy == *self,
    {
        FileEntry {
            filename: self.filename.clone(),
            hash: self.hash.clone(),
            version: self.version,
            action: self.action,
        }
    }
}

impl FileEntry {
    /// An entry from its four parts.
    pub fn new(filename: String, hash: String, version: u64, action: Action) -> (entry: FileEntry)
        ensures
            entry.filename == filename,
            entry.hash == hash,
            entry.version == version,
            entry.action == action,
    {
        FileEntry { filename, hash, version, action }
    }
}

} // verus!
