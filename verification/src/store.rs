//! The three operations carried out on a model of the filesystem: a store
//! that holds, for each path text, the bytes of the regular file there, and
//! on which every copy and every removal that an operation plans is made and
//! succeeds. What a real filesystem does with a plan is the caller's side;
//! the laws here say what the plans come to where it does as the model does.

use crate::error::{DeleteOutcome, OpError};
use crate::operations::{
    backup_path_of, backup_plan, delete_plan, is_confirmation, lemma_backup_path_is_apart,
    restore_plan, FileKind, Route,
};
use vstd::prelude::*;

verus! {

/// The regular files of a filesystem: their bytes, by the text of their path.
pub struct FileStore {
    pub files: Map<Seq<char>, Seq<u8>>,
}

impl FileStore {
    /// Whether a file stands at `path`.
    pub open spec fn holds(self, path: Seq<char>) -> bool {
        self.files.contains_key(path)
    }

    /// What a caller finds at `path`.
    pub open spec fn kind_at(self, path: Seq<char>) -> FileKind {
        if self.holds(path) {
            FileKind::Regular
        } else {
            FileKind::Missing
        }
    }

    /// The store once `bytes` have been written to `path`.
    pub open spec fn written(self, path: Seq<char>, bytes: Seq<u8>) -> FileStore {
        FileStore { files: self.files.insert(path, bytes) }
    }

    /// The store once the copy along `route` has been made.
    pub open spec fn copied(self, route: Route) -> FileStore {
        self.written(route.to, self.files[route.from])
    }

    /// The store once the file at `path` has been removed.
    pub open spec fn removed(self, path: Seq<char>) -> FileStore {
        FileStore { files: self.files.remove(path) }
    }

    /// The store after a backup of `target`, and the result of the backup.
    pub open spec fn backup(self, target: Seq<char>) -> (FileStore, Result<Seq<char>, OpError>) {
        match backup_plan(target, self.kind_at(target)) {
            Ok(route) => (self.copied(route), Ok(route.to)),
            Err(e) => (self, Err(e)),
        }
    }

    /// The store after the restoring of `target`, and the result of the
    /// restoring.
    pub open spec fn restore(self, target: Seq<char>) -> (FileStore, Result<(), OpError>) {
        match restore_plan(target, self.holds(backup_path_of(target))) {
            Ok(route) => (self.copied(route), Ok(())),
            Err(e) => (self, Err(e)),
        }
    }

    /// The store after a deletion of `target` asked for with `confirmation`,
    /// and the result of the deletion.
    pub open spec fn delete(self, target: Seq<char>, confirmation: Seq<char>) -> (
        FileStore,
        Result<DeleteOutcome, OpError>,
    ) {
        match delete_plan(target, self.kind_at(target), confirmation) {
            Ok(Some(path)) => (self.removed(path), Ok(DeleteOutcome::Deleted)),
            Ok(None) => (self, Ok(DeleteOutcome::Cancelled)),
            Err(e) => (self, Err(e)),
        }
    }
}

/// A backup of a file leaves the file as it is and puts its bytes at the
/// backup path; a backup of what is not there changes nothing and reports
/// that nothing was found.
pub proof fn lemma_backup_copies(store: FileStore, target: Seq<char>)
    ensures
        store.holds(target) ==> {
            let (after, result) = store.backup(target);
            &&& result == Ok::<Seq<char>, OpError>(backup_path_of(target))
            &&& after.files[backup_path_of(target)] == store.files[target]
            &&& after.files[target] == store.files[target]
            &&& after.holds(target) && after.holds(backup_path_of(target))
        },
        !store.holds(target) ==> store.backup(target) == (
            store,
            Err::<Seq<char>, OpError>(OpError::NotFound),
        ),
{
    lemma_backup_path_is_apart(target, target);
}

/// Back up a file, overwrite it with anything, restore it: the file holds
/// again, byte for byte, what it held when it was backed up.
pub proof fn lemma_restore_returns_backed_up_bytes(
    store: FileStore,
    target: Seq<char>,
    change: Seq<u8>,
)
    requires
        store.holds(target),
    ensures
        ({
            let (kept, _) = store.backup(target);
            let changed = kept.written(target, change);
            let (restored, result) = changed.restore(target);
            &&& result == Ok::<(), OpError>(())
            &&& restored.files[target] == store.files[target]
        }),
{
    lemma_backup_path_is_apart(target, target);
}

/// Restoring without a backup reports that there is none and changes
/// nothing.
pub proof fn lemma_restore_without_backup(store: FileStore, target: Seq<char>)
    requires
        !store.holds(backup_path_of(target)),
    ensures
        store.restore(target) == (store, Err::<(), OpError>(OpError::NoBackup)),
{
}

/// A deletion of a file that is not confirmed is cancelled and changes
/// nothing; a confirmed one removes the file and nothing else.
pub proof fn lemma_delete_needs_confirmation(
    store: FileStore,
    target: Seq<char>,
    confirmation: Seq<char>,
)
    requires
        store.holds(target),
    ensures
        !is_confirmation(confirmation) ==> store.delete(target, confirmation) == (
            store,
            Ok::<DeleteOutcome, OpError>(DeleteOutcome::Cancelled),
        ),
        is_confirmation(confirmation) ==> {
            let (after, result) = store.delete(target, confirmation);
            &&& result == Ok::<DeleteOutcome, OpError>(DeleteOutcome::Deleted)
            &&& !after.holds(target)
            &&& forall|other: Seq<char>|
                other != target ==> after.holds(other) == store.holds(other) && after.files[other]
                    == store.files[other]
        },
{
}

/// The whole course: back up a file, overwrite it, restore it and delete it
/// with confirmation. The file is gone, and its backup still holds what the
/// file held at first.
pub proof fn lemma_backup_outlives_deletion(
    store: FileStore,
    target: Seq<char>,
    change: Seq<u8>,
    confirmation: Seq<char>,
)
    requires
        store.holds(target),
        is_confirmation(confirmation),
    ensures
        ({
            let (kept, _) = store.backup(target);
            let changed = kept.written(target, change);
            let (restored, _) = changed.restore(target);
            let (left, result) = restored.delete(target, confirmation);
            &&& result == Ok::<DeleteOutcome, OpError>(DeleteOutcome::Deleted)
            &&& !left.holds(target)
            &&& left.holds(backup_path_of(target))
            &&& left.files[backup_path_of(target)] == store.files[target]
        }),
{
    lemma_backup_path_is_apart(target, target);
}

} // verus!
