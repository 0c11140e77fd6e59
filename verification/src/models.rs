//! The rows of the registry and the forms that create them.

use vstd::prelude::*;
use vstd::string::*;

verus! {

/// How a file is split into chunks.
#[derive(Debug, Clone, Copy, PartialEq, Eq, Structural)]
pub enum FileFormat {
    Binary,
    Text,
}

impl FileFormat {
    /// The number a format is stored under: 1 for binary, 2 for text.
    pub fn code(&self) -> (c: i32)
        ensures
            c == match self {
                FileFormat::Binary => 1i32,
                FileFormat::Text => 2i32,
            },
    {
        match self {
            FileFormat::Binary => 1,
            FileFormat::Text => 2,
        }
    }
}

/// What the indexer tells the syncer after a scan that changed the registry.
#[derive(Debug, Clone, Copy, PartialEq, Eq, Structural)]
pub enum IndexerUpdateEvent {
    Updated,
}

/// An instant, in nanoseconds since the Unix epoch.
#[derive(Debug, Clone, Copy, PartialEq, Eq, Structural)]
pub struct Timestamp {
    pub unix_nanos: i128,
}

/// One revision of one file, as the registry stores it.
#[derive(Debug)]
pub struct FileRecord {
    pub id: i32,
    pub jid: Option<i32>,
    pub deleted: bool,
    pub path: String,
    pub size: i64,
    pub modified_at: Timestamp,
    pub namespace_id: i32,
}

/// The mathematical value of a `FileRecord`.
pub struct FileRecordView {
    pub id: int,
    pub jid: Option<int>,
    pub deleted: bool,
    pub path: Seq<char>,
    pub size: int,
    pub modified_at: int,
    pub namespace_id: int,
}

/// A row to insert: a file as it was seen on disk, or as it was downloaded.
#[derive(Debug)]
pub struct CreateForm {
    pub jid: Option<i32>,
    pub path: String,
    pub deleted: bool,
    pub size: i64,
    pub modified_at: Timestamp,
    pub namespace_id: i32,
}

/// A tombstone to insert: a file that is gone.
#[derive(Debug)]
pub struct DeleteForm {
    pub path: String,
    pub jid: Option<i32>,
    pub size: i64,
    pub modified_at: Timestamp,
    pub deleted: bool,
    pub namespace_id: i32,
}

/// The mathematical value of a `CreateForm` or of a `DeleteForm`: a row
/// that has no id yet.
pub struct FormView {
    pub jid: Option<int>,
    pub path: Seq<char>,
    pub deleted: bool,
    pub size: int,
    pub modified_at: int,
    pub namespace_id: int,
}

impl FormView {
    /// The row this form becomes when it is stored under `id`.
    pub open spec fn with_id(self, id: int) -> FileRecordView {
        FileRecordView {
            id,
            jid: self.jid,
            deleted: self.deleted,
            path: self.path,
            size: self.size,
            modified_at: self.modified_at,
            namespace_id: self.namespace_id,
        }
    }
}

/// The size and modification time of a file, as a change to apply.
#[derive(Debug, Clone, Copy, PartialEq, Eq, Structural)]
pub struct FileRecordUpdateForm {
    pub size: i64,
    pub modified_at: Timestamp,
}

/// The high-level state of a sync session, as reported to a listener.
#[derive(Debug)]
pub enum SyncStatus {
    /// No sync activity is currently happening.
    Idle,
    /// The session is starting.
    Syncing,
    /// Local files are being indexed.
    Indexing,
    /// Files are being downloaded from the remote.
    Downloading,
    /// Files are being uploaded to the remote.
    Uploading,
    /// The session failed.
    Error { message: String },
}

/// An `Option<i32>` as an `Option<int>`.
pub open spec fn opt_int(o: Option<i32>) -> Option<int> {
    match o {
        Some(v) => Some(v as int),
        None => None,
    }
}

impl View for FileRecord {
    type V = FileRecordView;

    open spec fn view(&self) -> FileRecordView {
        FileRecordView {
            id: self.id as int,
            jid: opt_int(self.jid),
            deleted: self.deleted,
            path: self.path@,
            size: self.size as int,
            modified_at: self.modified_at.unix_nanos as int,
            namespace_id: self.namespace_id as int,
        }
    }
}

impl View for CreateForm {
    type V = FormView;

    open spec fn view(&self) -> FormView {
        FormView {
            jid: opt_int(self.jid),
            path: self.path@,
            deleted: self.deleted,
            size: self.size as int,
            modified_at: self.modified_at.unix_nanos as int,
            namespace_id: self.namespace_id as int,
        }
    }
}

impl View for DeleteForm {
    type V = FormView;

    open spec fn view(&self) -> FormView {
        FormView {
            jid: opt_int(self.jid),
            path: self.path@,
            deleted: self.deleted,
            size: self.size as int,
            modified_at: self.modified_at.unix_nanos as int,
            namespace_id: self.namespace_id as int,
        }
    }
}

impl Clone for FileRecord {
    fn clone(&self) -> (r: Self)
        ensures
            r@ == self@,
    {
        FileRecord {
            id: self.id,
            jid: self.jid,
            deleted: self.deleted,
            path: self.path.clone(),
            size: self.size,
            modified_at: self.modified_at,
            namespace_id: self.namespace_id,
        }
    }
}

impl Clone for CreateForm {
    fn clone(&self) -> (r: Self)
        ensures
            r@ == self@,
    {
        CreateForm {
            jid: self.jid,
            path: self.path.clone(),
            deleted: self.deleted,
            size: self.size,
            modified_at: self.modified_at,
            namespace_id: self.namespace_id,
        }
    }
}

impl Clone for DeleteForm {
    fn clone(&self) -> (r: Self)
        ensures
            r@ == self@,
    {
        DeleteForm {
            path: self.path.clone(),
            jid: self.jid,
            size: self.size,
            modified_at: self.modified_at,
            deleted: self.deleted,
            namespace_id: self.namespace_id,
        }
    }
}

/// A stored row and a disk candidate describe the same file state: the same
/// path, size and modification time. The id, the jid and the tombstone mark
/// play no part.
pub open spec fn same_file_state(record: FileRecordView, form: FormView) -> bool {
    record.path == form.path && record.size == form.size && record.modified_at
        == form.modified_at
}

impl PartialEq<CreateForm> for FileRecord {
    fn eq(&self, other: &CreateForm) -> (r: bool) {
        self.path == other.path && self.size == other.size && self.modified_at.unix_nanos
            == other.modified_at.unix_nanos
    }
}

impl vstd::std_specs::cmp::PartialEqSpecImpl<CreateForm> for FileRecord {
    open spec fn obeys_eq_spec() -> bool {
        true
    }

    open spec fn eq_spec(&self, other: &CreateForm) -> bool {
        same_file_state(self@, other@)
    }
}

} // verus!
