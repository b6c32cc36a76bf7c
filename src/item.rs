//! Items of a calendar and their synchronisation status.
use vstd::prelude::*;

verus! {

/// The identifier of an item, chosen by the side that creates it and kept
/// verbatim by both sides afterwards.
#[derive(Clone, Copy, Debug, PartialEq, Eq, Structural)]
pub struct ItemId {
    pub id: u64,
}

/// An opaque version marker. Only its equality is ever looked at.
#[derive(Clone, Copy, Debug, PartialEq, Eq, Structural)]
pub struct VersionTag {
    pub tag: u64,
}

/// Where an item stands with respect to the last exchange with the other side.
#[derive(Clone, Copy, Debug, PartialEq, Eq, Structural)]
pub enum SyncStatus {
    /// Never exchanged.
    NotSynced,
    /// Content matches the last exchanged state.
    Synced(VersionTag),
    /// Edited since the last exchange; the tag is the pre-edit baseline.
    LocallyModified(VersionTag),
    /// Deletion pending since the last exchange.
    LocallyDeleted(VersionTag),
}

impl SyncStatus {
    /// Synced and untouched since.
    pub open spec fn is_unchanged(self) -> bool {
        self is Synced
    }

    /// The status after a local edit.
    pub open spec fn after_edit(self) -> SyncStatus {
        match self {
            SyncStatus::Synced(t) => SyncStatus::LocallyModified(t),
            other => other,
        }
    }

    /// The status after a local deletion request.
    pub open spec fn after_deletion(self) -> SyncStatus {
        match self {
            SyncStatus::NotSynced => SyncStatus::NotSynced,
            SyncStatus::Synced(t) => SyncStatus::LocallyDeleted(t),
            SyncStatus::LocallyModified(t) => SyncStatus::LocallyDeleted(t),
            SyncStatus::LocallyDeleted(t) => SyncStatus::LocallyDeleted(t),
        }
    }

    pub fn is_synced(&self) -> (r: bool)
        ensures
            r == self.is_unchanged(),
    {
        match self {
            SyncStatus::Synced(_) => true,
            _ => false,
        }
    }

    pub fn is_locally_deleted(&self) -> (r: bool)
        ensures
            r == (*self is LocallyDeleted),
    {
        match self {
            SyncStatus::LocallyDeleted(_) => true,
            _ => false,
        }
    }
}

/// The content of a task, as exchanged between the two sides.
pub struct TaskContent {
    pub name: Seq<char>,
    pub completed: bool,
}

/// The mathematical value of a task.
pub struct TaskView {
    pub id: ItemId,
    pub name: Seq<char>,
    pub completed: bool,
    pub status: SyncStatus,
}

impl TaskView {
    pub open spec fn content(self) -> TaskContent {
        TaskContent { name: self.name, completed: self.completed }
    }
}

/// A to-do item.
#[derive(Debug)]
pub struct Task {
    id: ItemId,
    name: String,
    completed: bool,
    sync_status: SyncStatus,
}

impl View for Task {
    type V = TaskView;

    closed spec fn view(&self) -> TaskView {
        TaskView {
            id: self.id,
            name: self.name@,
            completed: self.completed,
            status: self.sync_status,
        }
    }
}

impl Task {
    /// A new, not yet completed task.
    pub fn new(name: String, id: ItemId, sync_status: SyncStatus) -> (r: Task)
        ensures
            r@ == (TaskView { id, name: name@, completed: false, status: sync_status }),
    {
        Task { id, name, completed: false, sync_status }
    }

    pub fn id(&self) -> (r: ItemId)
        ensures
            r == self@.id,
    {
        self.id
    }

    pub fn name(&self) -> (r: &String)
        ensures
            r@ == self@.name,
    {
        &self.name
    }

    pub fn completed(&self) -> (r: bool)
        ensures
            r == self@.completed,
    {
        self.completed
    }

    pub fn sync_status(&self) -> (r: SyncStatus)
        ensures
            r == self@.status,
    {
        self.sync_status
    }

    /// A task equal to this one in every field.
    pub fn duplicate(&self) -> (r: Task)
        ensures
            r@ == self@,
    {
        Task {
            id: self.id,
            name: self.name.clone(),
            completed: self.completed,
            sync_status: self.sync_status,
        }
    }

    /// Renames the task: a synced task becomes locally modified.
    pub fn set_name(&mut self, name: String)
        ensures
            final(self)@ == (TaskView {
                name: name@,
                status: old(self)@.status.after_edit(),
                ..old(self)@
            }),
    {
        self.name = name;
        self.mark_edited();
    }

    /// Sets the completion flag: a synced task becomes locally modified.
    pub fn set_completed(&mut self, completed: bool)
        ensures
            final(self)@ == (TaskView {
                completed,
                status: old(self)@.status.after_edit(),
                ..old(self)@
            }),
    {
        self.completed = completed;
        self.mark_edited();
    }

    /// Records a local deletion request.
    pub fn mark_deleted(&mut self)
        ensures
            final(self)@ == (TaskView { status: old(self)@.status.after_deletion(), ..old(self)@ }),
    {
        self.sync_status = match self.sync_status {
            SyncStatus::NotSynced => SyncStatus::NotSynced,
            SyncStatus::Synced(t) => SyncStatus::LocallyDeleted(t),
            SyncStatus::LocallyModified(t) => SyncStatus::LocallyDeleted(t),
            SyncStatus::LocallyDeleted(t) => SyncStatus::LocallyDeleted(t),
        };
    }

    /// Sets the status directly, as the synchronisation does after an exchange.
    pub fn set_sync_status(&mut self, status: SyncStatus)
        ensures
            final(self)@ == (TaskView { status, ..old(self)@ }),
    {
        self.sync_status = status;
    }

    fn mark_edited(&mut self)
        ensures
            final(self)@ == (TaskView { status: old(self)@.status.after_edit(), ..old(self)@ }),
    {
        if let SyncStatus::Synced(t) = self.sync_status {
            self.sync_status = SyncStatus::LocallyModified(t);
        }
    }
}

} // verus!
