//! The registry: an append-only log of file revisions.
//!
//! Rows are only ever added, and the one change a stored row can see is
//! the attachment of a jid to a row that has none. For each tenant and path
//! the row with the greatest id is the one that counts.

use vstd::prelude::*;
use vstd::string::*;
use crate::errors::{SyncError, SyncErrorView};
use crate::models::{opt_int, CreateForm, DeleteForm, FileRecord, FileRecordView, FormView};

verus! {

/// The views of a vector of rows.
pub open spec fn record_views(v: Seq<FileRecord>) -> Seq<FileRecordView> {
    v.map_values(|r: FileRecord| r@)
}

/// The views of a vector of forms.
pub open spec fn create_views(v: Seq<CreateForm>) -> Seq<FormView> {
    v.map_values(|f: CreateForm| f@)
}

/// The views of a vector of tombstones.
pub open spec fn delete_views(v: Seq<DeleteForm>) -> Seq<FormView> {
    v.map_values(|f: DeleteForm| f@)
}

/// The ids of the rows grow strictly from each row to the next.
pub open spec fn ids_increase(rows: Seq<FileRecordView>) -> bool {
    forall|i: int, j: int| 0 <= i < j < rows.len() ==> rows[i].id < rows[j].id
}

/// Row `i` is the latest of its tenant and path: no later row has both.
pub open spec fn is_latest(rows: Seq<FileRecordView>, i: int) -> bool {
    forall|j: int|
        i < j < rows.len() ==> !(#[trigger] rows[j].namespace_id == rows[i].namespace_id
            && rows[j].path == rows[i].path)
}

/// Row `i` is a file of `tenant` that exists: the latest row of its path,
/// and no tombstone.
pub open spec fn live_at(rows: Seq<FileRecordView>, tenant: int, i: int) -> bool {
    rows[i].namespace_id == tenant && !rows[i].deleted && is_latest(rows, i)
}

/// Row `i` is a change of `tenant` that the remote has not accepted yet: the
/// latest row of its path, without a jid.
pub open spec fn pending_at(rows: Seq<FileRecordView>, tenant: int, i: int) -> bool {
    rows[i].namespace_id == tenant && rows[i].jid is None && is_latest(rows, i)
}

/// Among the first `n` rows, those of `tenant` that exist, in the order of
/// the log.
pub open spec fn live_rows(rows: Seq<FileRecordView>, tenant: int, n: int) -> Seq<
    FileRecordView,
>
    decreases n,
{
    if n <= 0 {
        Seq::empty()
    } else if live_at(rows, tenant, n - 1) {
        live_rows(rows, tenant, n - 1).push(rows[n - 1])
    } else {
        live_rows(rows, tenant, n - 1)
    }
}

/// Among the first `n` rows, the pending changes of `tenant`, in the order
/// of the log.
pub open spec fn pending_rows(rows: Seq<FileRecordView>, tenant: int, n: int) -> Seq<
    FileRecordView,
>
    decreases n,
{
    if n <= 0 {
        Seq::empty()
    } else if pending_at(rows, tenant, n - 1) {
        pending_rows(rows, tenant, n - 1).push(rows[n - 1])
    } else {
        pending_rows(rows, tenant, n - 1)
    }
}

/// The greatest jid among the first `n` rows that belong to `tenant` and
/// have one.
pub open spec fn max_jid(rows: Seq<FileRecordView>, tenant: int, n: int) -> Option<int>
    decreases n,
{
    if n <= 0 {
        None
    } else {
        let before = max_jid(rows, tenant, n - 1);
        let row = rows[n - 1];
        if row.namespace_id == tenant && row.jid is Some {
            match before {
                Some(m) => if row.jid->0 > m {
                    row.jid
                } else {
                    before
                },
                None => row.jid,
            }
        } else {
            before
        }
    }
}

/// The high-water mark of `tenant`: the greatest jid of its rows that have
/// one, and 0 only where none of them has one.
pub open spec fn latest_jid_of(rows: Seq<FileRecordView>, tenant: int) -> int {
    match max_jid(rows, tenant, rows.len() as int) {
        Some(m) => m,
        None => 0,
    }
}

/// No form carries a jid below 0. The jids that the remote assigns are not
/// below 0, so this holds of every form that carries a jid of the remote.
pub open spec fn jids_not_negative(forms: Seq<FormView>) -> bool {
    forall|k: int| 0 <= k < forms.len() && (#[trigger] forms[k]).jid is Some ==> forms[k].jid->0 >= 0
}

/// The rows after `forms` were appended, with ids counting up from
/// `first_id`.
pub open spec fn appended(rows: Seq<FileRecordView>, forms: Seq<FormView>, first_id: int) -> Seq<
    FileRecordView,
> {
    rows + Seq::new(forms.len(), |k: int| forms[k].with_id(first_id + k))
}

/// The id the next row gets: one more than the last, or 1 in an empty log.
pub open spec fn next_id(rows: Seq<FileRecordView>) -> int {
    if rows.len() == 0 {
        1
    } else {
        rows.last().id + 1
    }
}

/// The position of the row with the given id, if there is one.
pub open spec fn position_of(rows: Seq<FileRecordView>, id: int, n: int) -> Option<int>
    decreases n,
{
    if n <= 0 {
        None
    } else if rows[n - 1].id == id {
        Some(n - 1)
    } else {
        position_of(rows, id, n - 1)
    }
}

/// A row with its jid set.
pub open spec fn with_jid(row: FileRecordView, jid: int) -> FileRecordView {
    FileRecordView { jid: Some(jid), ..row }
}

/// The append-only log of file revisions of all tenants.
pub struct Registry {
    rows: Vec<FileRecord>,
}

impl View for Registry {
    type V = Seq<FileRecordView>;

    closed spec fn view(&self) -> Seq<FileRecordView> {
        record_views(self.rows@)
    }
}

impl Registry {
    /// The ids are at least 1 and grow strictly along the log.
    #[verifier::type_invariant]
    closed spec fn well_formed(&self) -> bool {
        &&& ids_increase(record_views(self.rows@))
        &&& forall|i: int| 0 <= i < self.rows@.len() ==> self.rows@[i].id >= 1
    }

    /// An empty registry.
    pub fn new() -> (r: Registry)
        ensures
            r@.len() == 0,
    {
        Registry { rows: Vec::new() }
    }

    /// The registry that holds `rows`, in this order; `None` unless the ids
    /// are at least 1 and grow strictly.
    pub fn from_rows(rows: Vec<FileRecord>) -> (r: Option<Registry>)
        ensures
            match r {
                Some(reg) => reg@ == record_views(rows@),
                None => true,
            },
            r is Some <==> (ids_increase(record_views(rows@)) && forall|i: int|
                0 <= i < rows@.len() ==> rows@[i].id >= 1),
    {
        let mut i: usize = 0;
        while i < rows.len()
            invariant
                i <= rows@.len(),
                forall|a: int, b: int| 0 <= a < b < i ==> rows@[a].id < rows@[b].id,
                forall|a: int| 0 <= a < i ==> rows@[a].id >= 1,
            decreases rows@.len() - i,
        {
            if rows[i].id < 1 {
                return None;
            }
            if i > 0 && rows[i - 1].id >= rows[i].id {
                proof {
                    assert(record_views(rows@)[i - 1].id >= record_views(rows@)[i as int].id);
                }
                return None;
            }
            i += 1;
        }
        Some(Registry { rows })
    }

    /// Every row of the log, in order.
    pub fn rows(&self) -> (r: &Vec<FileRecord>)
        ensures
            record_views(r@) == self@,
            ids_increase(self@),
    {
        proof {
            use_type_invariant(self);
        }
        &self.rows
    }

    /// The number of rows in the log.
    pub fn len(&self) -> (n: usize)
        ensures
            n == self@.len(),
    {
        self.rows.len()
    }
}

/// The message of the error that a full registry answers with.
pub open spec fn full_message() -> Seq<char> {
    "no row id is left"@
}

/// The message of the error that a second, different jid for a row is
/// answered with.
pub open spec fn conflict_message() -> Seq<char> {
    "the row already has another jid"@
}

/// What `update_jid` does to the log: the row with the id gets the jid
/// where it has none or the same one; the log stays as it is where no row
/// has the id, and where the row has another jid.
pub open spec fn attached(rows: Seq<FileRecordView>, id: int, jid: int) -> Seq<FileRecordView> {
    match position_of(rows, id, rows.len() as int) {
        Some(i) => if rows[i].jid is None {
            rows.update(i, with_jid(rows[i], jid))
        } else {
            rows
        },
        None => rows,
    }
}

/// Whether attaching `jid` to the row with the id is refused: the row has
/// another jid already.
pub open spec fn attach_refused(rows: Seq<FileRecordView>, id: int, jid: int) -> bool {
    match position_of(rows, id, rows.len() as int) {
        Some(i) => rows[i].jid is Some && rows[i].jid->0 != jid,
        None => false,
    }
}

/// What `position_of` returns is a row with the id, and `None` means that
/// no row among the first `n` has it.
pub proof fn lemma_position_of(rows: Seq<FileRecordView>, id: int, n: int)
    requires
        n <= rows.len(),
    ensures
        match position_of(rows, id, n) {
            Some(i) => 0 <= i < n && rows[i].id == id,
            None => forall|j: int| 0 <= j < n ==> rows[j].id != id,
        },
    decreases n,
{
    if n > 0 && rows[n - 1].id != id {
        lemma_position_of(rows, id, n - 1);
    }
}

/// In a log whose ids grow strictly, the row with an id is found at its
/// position.
pub proof fn lemma_position_unique(rows: Seq<FileRecordView>, id: int, i: int, n: int)
    requires
        ids_increase(rows),
        0 <= i < n <= rows.len(),
        rows[i].id == id,
    ensures
        position_of(rows, id, n) == Some(i),
    decreases n,
{
    if rows[n - 1].id != id {
        lemma_position_unique(rows, id, i, n - 1);
    }
}

impl Registry {
    /// The id of the last row, 0 in an empty log.
    fn last_id(&self) -> (id: i32)
        ensures
            id + 1 == next_id(self@),
            id >= 0,
    {
        proof {
            use_type_invariant(self);
        }
        if self.rows.len() == 0 {
            0
        } else {
            self.rows[self.rows.len() - 1].id
        }
    }

    /// Appends one row under the next id.
    fn push_row(&mut self, row: FileRecord)
        requires
            row.id == next_id(old(self)@),
            row.id >= 1,
        ensures
            final(self)@ == old(self)@.push(row@),
    {
        proof {
            use_type_invariant(&*self);
            assert(record_views(self.rows@.push(row)) =~= record_views(self.rows@).push(row@));
        }
        let mut rows: Vec<FileRecord> = Vec::new();
        core::mem::swap(&mut rows, &mut self.rows);
        rows.push(row);
        core::mem::swap(&mut rows, &mut self.rows);
    }

    /// Inserts one row for each form, in order, under the ids that follow
    /// the last one. Either all rows are inserted or, where the ids run
    /// out, none.
    pub fn create(&mut self, forms: &Vec<CreateForm>) -> (r: Result<usize, SyncError>)
        ensures
            jids_not_negative(create_views(forms@)) ==> forall|tenant: int| #[trigger]
                latest_jid_of(final(self)@, tenant) >= latest_jid_of(old(self)@, tenant),
            match r {
                Ok(n) => {
                    &&& n == forms@.len()
                    &&& next_id(old(self)@) + forms@.len() - 1 <= i32::MAX
                    &&& final(self)@ == appended(
                        old(self)@,
                        create_views(forms@),
                        next_id(old(self)@),
                    )
                },
                Err(e) => {
                    &&& next_id(old(self)@) + forms@.len() - 1 > i32::MAX
                    &&& final(self)@ == old(self)@
                    &&& e@ == SyncErrorView::DBQueryError(full_message())
                },
            },
    {
        let last = self.last_id();
        if forms.len() > (i32::MAX - last) as usize {
            return Err(SyncError::DBQueryError("no row id is left".to_string()));
        }
        let ghost first = next_id(self@);
        let ghost before = self@;
        let mut k: usize = 0;
        proof {
            assert(self@ =~= appended(before, create_views(forms@).take(0), first));
        }
        while k < forms.len()
            invariant
                k <= forms@.len(),
                first + forms@.len() - 1 <= i32::MAX,
                first >= 1,
                self@ == appended(before, create_views(forms@).take(k as int), first),
                next_id(self@) == first + k,
            decreases forms@.len() - k,
        {
            let form = &forms[k];
            let row = FileRecord {
                id: self.last_id() + 1,
                jid: form.jid,
                deleted: form.deleted,
                path: form.path.clone(),
                size: form.size,
                modified_at: form.modified_at,
                namespace_id: form.namespace_id,
            };
            proof {
                assert(row@ == form@.with_id(first + k));
                assert(appended(before, create_views(forms@).take(k + 1), first) =~= appended(
                    before,
                    create_views(forms@).take(k as int),
                    first,
                ).push(row@));
            }
            self.push_row(row);
            k += 1;
        }
        proof {
            assert(create_views(forms@).take(forms@.len() as int) =~= create_views(forms@));
            if jids_not_negative(create_views(forms@)) {
                lemma_latest_jid_after_append(before, create_views(forms@), first);
            }
        }
        Ok(forms.len())
    }

    /// Records deletions. A deletion is an insertion too: one tombstone row
    /// for each form, in order, under the ids that follow the last one.
    /// Either all rows are inserted or, where the ids run out, none.
    pub fn delete(&mut self, forms: &Vec<DeleteForm>) -> (r: Result<usize, SyncError>)
        ensures
            jids_not_negative(delete_views(forms@)) ==> forall|tenant: int| #[trigger]
                latest_jid_of(final(self)@, tenant) >= latest_jid_of(old(self)@, tenant),
            match r {
                Ok(n) => {
                    &&& n == forms@.len()
                    &&& next_id(old(self)@) + forms@.len() - 1 <= i32::MAX
                    &&& final(self)@ == appended(
                        old(self)@,
                        delete_views(forms@),
                        next_id(old(self)@),
                    )
                },
                Err(e) => {
                    &&& next_id(old(self)@) + forms@.len() - 1 > i32::MAX
                    &&& final(self)@ == old(self)@
                    &&& e@ == SyncErrorView::DBQueryError(full_message())
                },
            },
    {
        let last = self.last_id();
        if forms.len() > (i32::MAX - last) as usize {
            return Err(SyncError::DBQueryError("no row id is left".to_string()));
        }
        let ghost first = next_id(self@);
        let ghost before = self@;
        let mut k: usize = 0;
        proof {
            assert(self@ =~= appended(before, delete_views(forms@).take(0), first));
        }
        while k < forms.len()
            invariant
                k <= forms@.len(),
                first + forms@.len() - 1 <= i32::MAX,
                first >= 1,
                self@ == appended(before, delete_views(forms@).take(k as int), first),
                next_id(self@) == first + k,
            decreases forms@.len() - k,
        {
            let form = &forms[k];
            let row = FileRecord {
                id: self.last_id() + 1,
                jid: form.jid,
                deleted: form.deleted,
                path: form.path.clone(),
                size: form.size,
                modified_at: form.modified_at,
                namespace_id: form.namespace_id,
            };
            proof {
                assert(row@ == form@.with_id(first + k));
                assert(appended(before, delete_views(forms@).take(k + 1), first) =~= appended(
                    before,
                    delete_views(forms@).take(k as int),
                    first,
                ).push(row@));
            }
            self.push_row(row);
            k += 1;
        }
        proof {
            assert(delete_views(forms@).take(forms@.len() as int) =~= delete_views(forms@));
            if jids_not_negative(delete_views(forms@)) {
                lemma_latest_jid_after_append(before, delete_views(forms@), first);
            }
        }
        Ok(forms.len())
    }

    /// Attaches `jid` to the stored row that has the id of `record`: the one
    /// change a stored row can see. Returns the number of rows that carry
    /// the jid afterwards: 0 where no row has the id. A row that has the
    /// same jid already stays as it is; a row that has another one is a
    /// conflict, and nothing changes.
    pub fn update_jid(&mut self, record: &FileRecord, jid: i32) -> (r: Result<usize, SyncError>)
        ensures
            jid >= 0 ==> forall|tenant: int| #[trigger]
                latest_jid_of(final(self)@, tenant) >= latest_jid_of(old(self)@, tenant),
            final(self)@ == attached(old(self)@, record.id as int, jid as int),
            match r {
                Ok(n) => {
                    &&& !attach_refused(old(self)@, record.id as int, jid as int)
                    &&& n == (if position_of(
                        old(self)@,
                        record.id as int,
                        old(self)@.len() as int,
                    ) is Some {
                        1usize
                    } else {
                        0usize
                    })
                },
                Err(e) => {
                    &&& attach_refused(old(self)@, record.id as int, jid as int)
                    &&& e@ == SyncErrorView::DBQueryError(conflict_message())
                },
            },
    {
        proof {
            use_type_invariant(&*self);
            if jid >= 0 {
                lemma_latest_jid_after_attach(self@, record.id as int, jid as int);
            }
        }
        let mut i: usize = 0;
        while i < self.rows.len()
            invariant
                i <= self.rows@.len(),
                self@ == old(self)@,
                jid >= 0 ==> forall|tenant: int| #[trigger]
                    latest_jid_of(attached(old(self)@, record.id as int, jid as int), tenant)
                        >= latest_jid_of(old(self)@, tenant),
                self.well_formed(),
                forall|j: int| 0 <= j < i ==> self@[j].id != record.id,
            decreases self.rows@.len() - i,
        {
            if self.rows[i].id == record.id {
                proof {
                    lemma_position_unique(self@, record.id as int, i as int, self@.len() as int);
                }
                match self.rows[i].jid {
                    Some(stored) => {
                        if stored == jid {
                            return Ok(1);
                        } else {
                            return Err(
                                SyncError::DBQueryError(
                                    "the row already has another jid".to_string(),
                                ),
                            );
                        }
                    },
                    None => {
                        let ghost before = self@;
                        let old_row = &self.rows[i];
                        let row = FileRecord {
                            id: old_row.id,
                            jid: Some(jid),
                            deleted: old_row.deleted,
                            path: old_row.path.clone(),
                            size: old_row.size,
                            modified_at: old_row.modified_at,
                            namespace_id: old_row.namespace_id,
                        };
                        proof {
                            assert(row@ == with_jid(before[i as int], jid as int));
                            assert(record_views(self.rows@.update(i as int, row)) =~= before.update(
                                i as int,
                                row@,
                            ));
                        }
                        let mut rows: Vec<FileRecord> = Vec::new();
                        core::mem::swap(&mut rows, &mut self.rows);
                        rows.set(i, row);
                        core::mem::swap(&mut rows, &mut self.rows);
                        proof {
                            assert(self@ == attached(before, record.id as int, jid as int));
                        }
                        return Ok(1);
                    },
                }
            }
            i += 1;
        }
        proof {
            lemma_position_of(self@, record.id as int, self@.len() as int);
        }
        Ok(0)
    }
}

impl Registry {
    /// Whether row `i` is the latest row of its tenant and path.
    fn latest_at(&self, i: usize) -> (r: bool)
        requires
            i < self@.len(),
        ensures
            r == is_latest(self@, i as int),
    {
        let n: usize = self.rows.len();
        let mut j: usize = i + 1;
        while j < n
            invariant
                n == self.rows@.len(),
                i < j <= self.rows@.len(),
                forall|k: int|
                    i < k < j ==> !(#[trigger] self@[k].namespace_id == self@[i as int].namespace_id
                        && self@[k].path == self@[i as int].path),
            decreases self.rows@.len() - j,
        {
            if self.rows[j].namespace_id == self.rows[i].namespace_id && self.rows[j].path
                == self.rows[i].path {
                proof {
                    assert(self@[j as int].namespace_id == self@[i as int].namespace_id
                        && self@[j as int].path == self@[i as int].path);
                }
                return false;
            }
            j += 1;
        }
        true
    }

    /// The files of the tenant `namespace_id` that exist: for each path the
    /// row with the greatest id, unless it is a tombstone; in the order of
    /// their ids.
    pub fn non_deleted(&self, namespace_id: i32) -> (r: Vec<FileRecord>)
        ensures
            record_views(r@) == live_rows(self@, namespace_id as int, self@.len() as int),
    {
        let mut out: Vec<FileRecord> = Vec::new();
        let mut i: usize = 0;
        proof {
            assert(record_views(out@) =~= live_rows(self@, namespace_id as int, 0));
        }
        while i < self.rows.len()
            invariant
                i <= self.rows@.len(),
                record_views(out@) == live_rows(self@, namespace_id as int, i as int),
            decreases self.rows@.len() - i,
        {
            let row = &self.rows[i];
            if row.namespace_id == namespace_id && !row.deleted && self.latest_at(i) {
                let copy = row.clone();
                proof {
                    assert(record_views(out@.push(copy)) =~= record_views(out@).push(copy@));
                }
                out.push(copy);
            }
            i += 1;
        }
        out
    }

    /// The changes of the tenant `namespace_id` that the remote has not
    /// accepted yet: for each path the row with the greatest id, where it
    /// has no jid; in the order of their ids.
    pub fn updated_locally(&self, namespace_id: i32) -> (r: Vec<FileRecord>)
        ensures
            record_views(r@) == pending_rows(self@, namespace_id as int, self@.len() as int),
    {
        let mut out: Vec<FileRecord> = Vec::new();
        let mut i: usize = 0;
        proof {
            assert(record_views(out@) =~= pending_rows(self@, namespace_id as int, 0));
        }
        while i < self.rows.len()
            invariant
                i <= self.rows@.len(),
                record_views(out@) == pending_rows(self@, namespace_id as int, i as int),
            decreases self.rows@.len() - i,
        {
            let row = &self.rows[i];
            if row.namespace_id == namespace_id && row.jid.is_none() && self.latest_at(i) {
                let copy = row.clone();
                proof {
                    assert(record_views(out@.push(copy)) =~= record_views(out@).push(copy@));
                }
                out.push(copy);
            }
            i += 1;
        }
        out
    }

    /// The high-water mark of the tenant `namespace_id`: the greatest jid of
    /// its rows that have one, and 0 only where none of them has one.
    pub fn latest_jid(&self, namespace_id: i32) -> (jid: i32)
        ensures
            jid == latest_jid_of(self@, namespace_id as int),
    {
        let mut best: Option<i32> = None;
        let mut i: usize = 0;
        while i < self.rows.len()
            invariant
                i <= self.rows@.len(),
                opt_int(best) == max_jid(self@, namespace_id as int, i as int),
            decreases self.rows@.len() - i,
        {
            let row = &self.rows[i];
            if row.namespace_id == namespace_id {
                match row.jid {
                    Some(j) => {
                        best = match best {
                            Some(m) => if j > m {
                                Some(j)
                            } else {
                                Some(m)
                            },
                            None => Some(j),
                        };
                    },
                    None => {},
                }
            }
            i += 1;
        }
        match best {
            Some(m) => m,
            None => 0,
        }
    }
}

/// `row` is one of the first `n` rows, at a position where `live_at` holds.
pub open spec fn is_live_row(rows: Seq<FileRecordView>, tenant: int, n: int, row: FileRecordView) -> bool {
    exists|i: int| 0 <= i < n && #[trigger] live_at(rows, tenant, i) && rows[i] == row
}

/// Every row that `live_rows` returns stands at a position where `live_at`
/// holds, and every row at such a position is returned.
pub proof fn lemma_live_rows_members(rows: Seq<FileRecordView>, tenant: int, n: int)
    requires
        0 <= n <= rows.len(),
    ensures
        forall|k: int|
            0 <= k < live_rows(rows, tenant, n).len() ==> is_live_row(
                rows,
                tenant,
                n,
                #[trigger] live_rows(rows, tenant, n)[k],
            ),
        forall|i: int|
            0 <= i < n && #[trigger] live_at(rows, tenant, i) ==> live_rows(
                rows,
                tenant,
                n,
            ).contains(rows[i]),
    decreases n,
{
    if n > 0 {
        lemma_live_rows_members(rows, tenant, n - 1);
        let prev = live_rows(rows, tenant, n - 1);
        let cur = live_rows(rows, tenant, n);
        assert forall|i: int| 0 <= i < n && #[trigger] live_at(rows, tenant, i) implies cur.contains(
            rows[i],
        ) by {
            if i < n - 1 {
                let k = choose|k: int| 0 <= k < prev.len() && prev[k] == rows[i];
                assert(cur[k] == rows[i]);
            } else {
                assert(cur[cur.len() - 1] == rows[i]);
            }
        }
        assert forall|k: int| 0 <= k < cur.len() implies is_live_row(
            rows,
            tenant,
            n,
            #[trigger] cur[k],
        ) by {
            if k < prev.len() {
                assert(cur[k] == prev[k]);
                assert(is_live_row(rows, tenant, n - 1, prev[k]));
                let i = choose|i: int|
                    0 <= i < n - 1 && #[trigger] live_at(rows, tenant, i) && rows[i] == prev[k];
                assert(live_at(rows, tenant, i));
            } else {
                assert(live_at(rows, tenant, n - 1));
                assert(rows[n - 1] == cur[k]);
            }
        }
    }
}

/// `row` is one of the first `n` rows, at a position where `pending_at` holds.
pub open spec fn is_pending_row(rows: Seq<FileRecordView>, tenant: int, n: int, row: FileRecordView) -> bool {
    exists|i: int| 0 <= i < n && #[trigger] pending_at(rows, tenant, i) && rows[i] == row
}

/// Every row that `pending_rows` returns stands at a position where `pending_at`
/// holds, and every row at such a position is returned.
pub proof fn lemma_pending_rows_members(rows: Seq<FileRecordView>, tenant: int, n: int)
    requires
        0 <= n <= rows.len(),
    ensures
        forall|k: int|
            0 <= k < pending_rows(rows, tenant, n).len() ==> is_pending_row(
                rows,
                tenant,
                n,
                #[trigger] pending_rows(rows, tenant, n)[k],
            ),
        forall|i: int|
            0 <= i < n && #[trigger] pending_at(rows, tenant, i) ==> pending_rows(
                rows,
                tenant,
                n,
            ).contains(rows[i]),
    decreases n,
{
    if n > 0 {
        lemma_pending_rows_members(rows, tenant, n - 1);
        let prev = pending_rows(rows, tenant, n - 1);
        let cur = pending_rows(rows, tenant, n);
        assert forall|i: int| 0 <= i < n && #[trigger] pending_at(rows, tenant, i) implies cur.contains(
            rows[i],
        ) by {
            if i < n - 1 {
                let k = choose|k: int| 0 <= k < prev.len() && prev[k] == rows[i];
                assert(cur[k] == rows[i]);
            } else {
                assert(cur[cur.len() - 1] == rows[i]);
            }
        }
        assert forall|k: int| 0 <= k < cur.len() implies is_pending_row(
            rows,
            tenant,
            n,
            #[trigger] cur[k],
        ) by {
            if k < prev.len() {
                assert(cur[k] == prev[k]);
                assert(is_pending_row(rows, tenant, n - 1, prev[k]));
                let i = choose|i: int|
                    0 <= i < n - 1 && #[trigger] pending_at(rows, tenant, i) && rows[i] == prev[k];
                assert(pending_at(rows, tenant, i));
            } else {
                assert(pending_at(rows, tenant, n - 1));
                assert(rows[n - 1] == cur[k]);
            }
        }
    }
}

/// `a` is no greater than `b`, where no jid at all is below every jid.
pub open spec fn jid_le(a: Option<int>, b: Option<int>) -> bool {
    match a {
        None => true,
        Some(x) => b is Some && x <= b->0,
    }
}

/// `later` is `earlier` with jids added: the same rows, but that a row
/// without a jid may have got one.
pub open spec fn jids_added(earlier: Seq<FileRecordView>, later: Seq<FileRecordView>) -> bool {
    &&& earlier.len() <= later.len()
    &&& forall|k: int|
        0 <= k < earlier.len() ==> (#[trigger] later[k]).namespace_id == earlier[k].namespace_id
            && (earlier[k].jid is Some ==> later[k].jid == earlier[k].jid)
}

/// The greatest jid, where there is one, is the jid of a row of the tenant.
pub proof fn lemma_max_jid_is_a_jid(rows: Seq<FileRecordView>, tenant: int, n: int)
    requires
        0 <= n <= rows.len(),
    ensures
        max_jid(rows, tenant, n) is Some ==> exists|k: int|
            0 <= k < n && (#[trigger] rows[k]).namespace_id == tenant && rows[k].jid == max_jid(
                rows,
                tenant,
                n,
            ),
        forall|k: int|
            0 <= k < n && (#[trigger] rows[k]).namespace_id == tenant ==> jid_le(
                rows[k].jid,
                max_jid(rows, tenant, n),
            ),
    decreases n,
{
    if n > 0 {
        lemma_max_jid_is_a_jid(rows, tenant, n - 1);
        let before = max_jid(rows, tenant, n - 1);
        let row = rows[n - 1];
        if row.namespace_id == tenant && row.jid is Some {
            if before is Some && !(row.jid->0 > before->0) {
                let k = choose|k: int|
                    0 <= k < n - 1 && (#[trigger] rows[k]).namespace_id == tenant && rows[k].jid
                        == before;
                assert(rows[k].jid == max_jid(rows, tenant, n));
            } else {
                assert(rows[n - 1].jid == max_jid(rows, tenant, n));
            }
        } else if before is Some {
            let k = choose|k: int|
                0 <= k < n - 1 && (#[trigger] rows[k]).namespace_id == tenant && rows[k].jid
                    == before;
            assert(rows[k].jid == max_jid(rows, tenant, n));
        }
    }
}

/// Where jids are only added, the greatest jid does not fall.
pub proof fn lemma_max_jid_grows(
    earlier: Seq<FileRecordView>,
    later: Seq<FileRecordView>,
    tenant: int,
)
    requires
        jids_added(earlier, later),
    ensures
        jid_le(
            max_jid(earlier, tenant, earlier.len() as int),
            max_jid(later, tenant, later.len() as int),
        ),
{
    let a = max_jid(earlier, tenant, earlier.len() as int);
    lemma_max_jid_is_a_jid(earlier, tenant, earlier.len() as int);
    lemma_max_jid_is_a_jid(later, tenant, later.len() as int);
    if a is Some {
        let k = choose|k: int|
            0 <= k < earlier.len() && (#[trigger] earlier[k]).namespace_id == tenant
                && earlier[k].jid == a;
        assert(later[k].namespace_id == tenant);
        assert(later[k].jid == a);
    }
}

/// Every jid that `later` has and `earlier` lacks is at least 0.
pub open spec fn added_jids_not_negative(
    earlier: Seq<FileRecordView>,
    later: Seq<FileRecordView>,
) -> bool {
    forall|k: int|
        0 <= k < later.len() && (#[trigger] later[k]).jid is Some && (k >= earlier.len()
            || earlier[k].jid is None) ==> later[k].jid->0 >= 0
}

/// The high-water mark of a tenant never falls where jids are only added
/// and no added jid is below 0. With a jid below 0 it can: the first jid of
/// a tenant would take the mark from 0 to below 0.
pub proof fn lemma_latest_jid_never_falls(
    earlier: Seq<FileRecordView>,
    later: Seq<FileRecordView>,
    tenant: int,
)
    requires
        jids_added(earlier, later),
        added_jids_not_negative(earlier, later),
    ensures
        latest_jid_of(later, tenant) >= latest_jid_of(earlier, tenant),
{
    lemma_max_jid_grows(earlier, later, tenant);
    let a = max_jid(earlier, tenant, earlier.len() as int);
    let b = max_jid(later, tenant, later.len() as int);
    if a is None && b is Some {
        lemma_max_jid_is_a_jid(later, tenant, later.len() as int);
        lemma_max_jid_is_a_jid(earlier, tenant, earlier.len() as int);
        let k = choose|k: int|
            0 <= k < later.len() && (#[trigger] later[k]).namespace_id == tenant && later[k].jid
                == b;
        if k < earlier.len() {
            assert(earlier[k].namespace_id == tenant);
            assert(jid_le(earlier[k].jid, a));
        }
    }
}

/// Jids that are at least 0 and only added, twice over, are at least 0 and
/// only added: so the mark never falls over any run of such changes.
pub proof fn lemma_added_not_negative_twice(
    first: Seq<FileRecordView>,
    second: Seq<FileRecordView>,
    third: Seq<FileRecordView>,
)
    requires
        jids_added(first, second),
        jids_added(second, third),
        added_jids_not_negative(first, second),
        added_jids_not_negative(second, third),
    ensures
        jids_added(first, third),
        added_jids_not_negative(first, third),
{
    lemma_jids_added_twice(first, second, third);
    assert forall|k: int|
        0 <= k < third.len() && (#[trigger] third[k]).jid is Some && (k >= first.len()
            || first[k].jid is None) implies third[k].jid->0 >= 0 by {
        if k < second.len() && second[k].jid is Some {
            assert(third[k].jid == second[k].jid);
            assert(second[k].jid->0 >= 0);
        }
    }
}

/// Jids that are only added, and then only added again, are only added.
pub proof fn lemma_jids_added_twice(
    first: Seq<FileRecordView>,
    second: Seq<FileRecordView>,
    third: Seq<FileRecordView>,
)
    requires
        jids_added(first, second),
        jids_added(second, third),
    ensures
        jids_added(first, third),
{
    assert forall|k: int| 0 <= k < first.len() implies (#[trigger] third[k]).namespace_id
        == first[k].namespace_id && (first[k].jid is Some ==> third[k].jid == first[k].jid) by {
        assert(second[k].namespace_id == first[k].namespace_id);
    }
}

/// Appending rows only adds jids.
pub proof fn lemma_append_adds_jids(
    rows: Seq<FileRecordView>,
    forms: Seq<FormView>,
    first_id: int,
)
    ensures
        jids_added(rows, appended(rows, forms, first_id)),
{
}

/// Attaching a jid to a row only adds a jid.
pub proof fn lemma_attach_adds_jids(rows: Seq<FileRecordView>, id: int, jid: int)
    ensures
        jids_added(rows, attached(rows, id, jid)),
        attached(rows, id, jid).len() == rows.len(),
{
    lemma_position_of(rows, id, rows.len() as int);
}

/// The high-water mark of every tenant stays or rises when rows are
/// appended, none of them with a jid below 0.
pub proof fn lemma_latest_jid_after_append(
    rows: Seq<FileRecordView>,
    forms: Seq<FormView>,
    first_id: int,
)
    requires
        jids_not_negative(forms),
    ensures
        forall|tenant: int| #[trigger]
            latest_jid_of(appended(rows, forms, first_id), tenant) >= latest_jid_of(rows, tenant),
{
    let later = appended(rows, forms, first_id);
    lemma_append_adds_jids(rows, forms, first_id);
    assert forall|k: int|
        0 <= k < later.len() && (#[trigger] later[k]).jid is Some && (k >= rows.len()
            || rows[k].jid is None) implies later[k].jid->0 >= 0 by {
        if k >= rows.len() {
            assert(later[k] == forms[k - rows.len()].with_id(first_id + k - rows.len()));
        }
    }
    assert forall|tenant: int| #[trigger]
        latest_jid_of(later, tenant) >= latest_jid_of(rows, tenant) by {
        lemma_latest_jid_never_falls(rows, later, tenant);
    }
}

/// The high-water mark of every tenant stays or rises when a jid that is
/// not below 0 is attached to a row.
pub proof fn lemma_latest_jid_after_attach(rows: Seq<FileRecordView>, id: int, jid: int)
    requires
        jid >= 0,
    ensures
        forall|tenant: int| #[trigger]
            latest_jid_of(attached(rows, id, jid), tenant) >= latest_jid_of(rows, tenant),
{
    lemma_attach_adds_jids(rows, id, jid);
    lemma_position_of(rows, id, rows.len() as int);
    assert forall|tenant: int| #[trigger]
        latest_jid_of(attached(rows, id, jid), tenant) >= latest_jid_of(rows, tenant) by {
        lemma_latest_jid_never_falls(rows, attached(rows, id, jid), tenant);
    }
}

/// Once the remote has accepted a pending change under a jid, the row of
/// that tenant and path carries exactly that jid and is pending no more;
/// every other row is as it was.
pub proof fn lemma_commit_attaches_jid(rows: Seq<FileRecordView>, tenant: int, i: int, jid: int)
    requires
        ids_increase(rows),
        0 <= i < rows.len(),
        pending_at(rows, tenant, i),
    ensures
        !attach_refused(rows, rows[i].id, jid),
        attached(rows, rows[i].id, jid) == rows.update(i, with_jid(rows[i], jid)),
        attached(rows, rows[i].id, jid)[i].jid == Some(jid),
        is_latest(attached(rows, rows[i].id, jid), i),
        !pending_at(attached(rows, rows[i].id, jid), tenant, i),
{
    lemma_position_unique(rows, rows[i].id, i, rows.len() as int);
    let after = attached(rows, rows[i].id, jid);
    assert forall|j: int| i < j < after.len() implies !(#[trigger] after[j].namespace_id
        == after[i].namespace_id && after[j].path == after[i].path) by {
        assert(after[j] == rows[j]);
        assert(!(rows[j].namespace_id == rows[i].namespace_id && rows[j].path == rows[i].path));
    }
}

impl Registry {
    /// Applies the outcome of one scan in a single batch: the tombstones
    /// first, then the insertions. Either every row is inserted or, where
    /// the ids run out, none.
    pub fn apply_batch(&mut self, to_remove: &Vec<DeleteForm>, to_add: &Vec<CreateForm>) -> (r:
        Result<usize, SyncError>)
        ensures
            jids_not_negative(delete_views(to_remove@)) && jids_not_negative(create_views(to_add@)) ==> forall|tenant: int| #[trigger]
                latest_jid_of(final(self)@, tenant) >= latest_jid_of(old(self)@, tenant),
            match r {
                Ok(n) => {
                    &&& n == to_remove@.len() + to_add@.len()
                    &&& next_id(old(self)@) + to_remove@.len() + to_add@.len() - 1 <= i32::MAX
                    &&& final(self)@ == appended(
                        appended(old(self)@, delete_views(to_remove@), next_id(old(self)@)),
                        create_views(to_add@),
                        next_id(old(self)@) + to_remove@.len(),
                    )
                },
                Err(e) => {
                    &&& next_id(old(self)@) + to_remove@.len() + to_add@.len() - 1 > i32::MAX
                    &&& final(self)@ == old(self)@
                    &&& e@ == SyncErrorView::DBQueryError(full_message())
                },
            },
    {
        let last = self.last_id();
        let room: usize = (i32::MAX - last) as usize;
        if to_remove.len() > room || to_add.len() > room - to_remove.len() {
            return Err(SyncError::DBQueryError("no row id is left".to_string()));
        }
        let ghost before = self@;
        let removed = self.delete(to_remove);
        proof {
            let mid = appended(before, delete_views(to_remove@), next_id(before));
            assert(mid.len() == before.len() + to_remove@.len());
            if to_remove@.len() > 0 {
                assert(mid.last() == delete_views(to_remove@)[to_remove@.len() - 1].with_id(
                    next_id(before) + to_remove@.len() - 1,
                ));
            } else {
                assert(mid =~= before);
            }
            assert(next_id(mid) == next_id(before) + to_remove@.len());
        }
        let added = self.create(to_add);
        Ok(to_remove.len() + to_add.len())
    }
}

/// What `live_rows` returns is ordered by id: each row was stored before
/// the next, and its id is the smaller.
pub proof fn lemma_live_rows_ordered(rows: Seq<FileRecordView>, tenant: int, n: int)
    requires
        0 <= n <= rows.len(),
        ids_increase(rows),
    ensures
        ids_increase(live_rows(rows, tenant, n)),
        forall|k: int|
            0 <= k < live_rows(rows, tenant, n).len() && n > 0 ==> (#[trigger] live_rows(
                rows,
                tenant,
                n,
            )[k]).id <= rows[n - 1].id,
    decreases n,
{
    if n > 0 {
        lemma_live_rows_ordered(rows, tenant, n - 1);
        let prev = live_rows(rows, tenant, n - 1);
        let cur = live_rows(rows, tenant, n);
        assert forall|k: int| 0 <= k < prev.len() implies (#[trigger] prev[k]).id < rows[n - 1].id by {
            if n - 1 > 0 {
                assert(prev[k].id <= rows[n - 2].id);
            }
        }
        assert forall|i: int, j: int| 0 <= i < j < cur.len() implies cur[i].id < cur[j].id by {
            if j < prev.len() {
                assert(cur[i] == prev[i] && cur[j] == prev[j]);
            } else {
                assert(cur[i] == prev[i]);
                assert(cur[j] == rows[n - 1]);
            }
        }
        assert forall|k: int| 0 <= k < cur.len() implies (#[trigger] cur[k]).id <= rows[n - 1].id by {
            if k < prev.len() {
                assert(cur[k] == prev[k]);
            }
        }
    }
}

/// What `pending_rows` returns is ordered by id: each row was stored before
/// the next, and its id is the smaller.
pub proof fn lemma_pending_rows_ordered(rows: Seq<FileRecordView>, tenant: int, n: int)
    requires
        0 <= n <= rows.len(),
        ids_increase(rows),
    ensures
        ids_increase(pending_rows(rows, tenant, n)),
        forall|k: int|
            0 <= k < pending_rows(rows, tenant, n).len() && n > 0 ==> (#[trigger] pending_rows(
                rows,
                tenant,
                n,
            )[k]).id <= rows[n - 1].id,
    decreases n,
{
    if n > 0 {
        lemma_pending_rows_ordered(rows, tenant, n - 1);
        let prev = pending_rows(rows, tenant, n - 1);
        let cur = pending_rows(rows, tenant, n);
        assert forall|k: int| 0 <= k < prev.len() implies (#[trigger] prev[k]).id < rows[n - 1].id by {
            if n - 1 > 0 {
                assert(prev[k].id <= rows[n - 2].id);
            }
        }
        assert forall|i: int, j: int| 0 <= i < j < cur.len() implies cur[i].id < cur[j].id by {
            if j < prev.len() {
                assert(cur[i] == prev[i] && cur[j] == prev[j]);
            } else {
                assert(cur[i] == prev[i]);
                assert(cur[j] == rows[n - 1]);
            }
        }
        assert forall|k: int| 0 <= k < cur.len() implies (#[trigger] cur[k]).id <= rows[n - 1].id by {
            if k < prev.len() {
                assert(cur[k] == prev[k]);
            }
        }
    }
}

} // verus!
