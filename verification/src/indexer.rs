//! The indexer: what one scan of the storage root does to the registry.
//!
//! A scan compares the files that the registry believes to exist with the
//! files that were found on disk. A file that is gone gets a tombstone; a
//! file that is new, or whose size or modification time changed, gets a new
//! row. The indexer never reads a file's bytes.

use vstd::prelude::*;
use vstd::string::*;
use crate::errors::{SyncError, SyncErrorView};
use crate::formats::{is_binary, is_binary_path, is_text, is_text_path};
use crate::models::{
    same_file_state, CreateForm, DeleteForm, FileRecord, FileRecordView, FormView,
    IndexerUpdateEvent, Timestamp,
};
use crate::paths::{relative_to, strip_base};
use crate::registry::{
    appended, create_views, delete_views, full_message, live_rows, next_id, record_views,
    Registry,
};

verus! {

/// Whether a path found on disk takes part in synchronization: it is no
/// symbolic link, and it names a text or a binary file.
pub fn filter_eligible(path: &str, is_symlink: bool) -> (r: bool)
    ensures
        r == (!is_symlink && (is_text_path(path@) || is_binary_path(path@))),
{
    if is_symlink {
        return false;
    }
    is_text(path) || is_binary(path)
}

/// The candidate row of a file found on disk.
pub open spec fn candidate(
    path: Seq<char>,
    size: int,
    modified_at: int,
    namespace_id: int,
) -> FormView {
    FormView { jid: None, path, deleted: false, size, modified_at, namespace_id }
}

/// The candidate row of the file found at the slash path `path` under the
/// storage root `base`, from its length and modification time. A file that
/// does not lie under the root is refused with `StripPrefix`, and one whose
/// length does not fit the registry with `Convert`.
pub fn build_file_record(
    path: &str,
    base: &str,
    len: u64,
    modified_at: Timestamp,
    namespace_id: i32,
) -> (r: Result<CreateForm, SyncError>)
    ensures
        match r {
            Ok(form) => {
                &&& relative_to(path@, base@) is Some
                &&& len <= i64::MAX
                &&& form@ == candidate(
                    relative_to(path@, base@)->0,
                    len as int,
                    modified_at.unix_nanos as int,
                    namespace_id as int,
                )
            },
            Err(e) => {
                &&& relative_to(path@, base@) is None ==> e@ == SyncErrorView::StripPrefix
                &&& relative_to(path@, base@) is Some ==> len > i64::MAX && e@
                    == SyncErrorView::Convert
            },
        },
{
    let relative = match strip_base(path, base) {
        Some(rel) => rel,
        None => {
            return Err(SyncError::StripPrefix);
        },
    };
    if len > 9223372036854775807 {
        return Err(SyncError::Convert);
    }
    Ok(
        CreateForm {
            jid: None,
            path: relative,
            deleted: false,
            size: len as i64,
            modified_at,
            namespace_id,
        },
    )
}

/// The tombstone of a stored row: its path, size and modification time, no
/// jid, for the tenant `namespace_id`.
pub open spec fn tombstone(record: FileRecordView, namespace_id: int) -> FormView {
    FormView {
        jid: None,
        path: record.path,
        deleted: true,
        size: record.size,
        modified_at: record.modified_at,
        namespace_id,
    }
}

/// The tombstone to insert for a stored file that is gone from disk.
pub fn build_delete_form(record: &FileRecord, namespace_id: i32) -> (form: DeleteForm)
    ensures
        form@ == tombstone(record@, namespace_id as int),
{
    DeleteForm {
        path: record.path.clone(),
        jid: None,
        deleted: true,
        size: record.size,
        modified_at: record.modified_at,
        namespace_id,
    }
}

/// The disk candidate for a path: among the first `n` candidates, the last
/// one that has the path. The candidates are read as a map from path, in
/// which a later candidate takes the place of an earlier one.
pub open spec fn on_disk(from_fs: Seq<FormView>, path: Seq<char>, n: int) -> Option<FormView>
    decreases n,
{
    if n <= 0 {
        None
    } else if from_fs[n - 1].path == path {
        Some(from_fs[n - 1])
    } else {
        on_disk(from_fs, path, n - 1)
    }
}

/// One of the first `n` stored rows has the path.
pub open spec fn in_db(from_db: Seq<FileRecordView>, path: Seq<char>, n: int) -> bool
    decreases n,
{
    if n <= 0 {
        false
    } else {
        in_db(from_db, path, n - 1) || from_db[n - 1].path == path
    }
}

/// Row `i` is the one that counts for its path: no later row has the path.
/// The rows are read as a map from path too.
pub open spec fn row_counts(from_db: Seq<FileRecordView>, i: int) -> bool {
    forall|j: int| i < j < from_db.len() ==> (#[trigger] from_db[j]).path != from_db[i].path
}

/// Candidate `k` is the one that counts for its path: no later candidate
/// has the path.
pub open spec fn candidate_counts(from_fs: Seq<FormView>, k: int) -> bool {
    forall|j: int| k < j < from_fs.len() ==> (#[trigger] from_fs[j]).path != from_fs[k].path
}

/// The tombstones of a scan: one for each of the first `n` stored rows that
/// counts for its path and whose path is not on disk, in the order of the
/// rows.
pub open spec fn removals(
    from_db: Seq<FileRecordView>,
    from_fs: Seq<FormView>,
    namespace_id: int,
    n: int,
) -> Seq<FormView>
    decreases n,
{
    if n <= 0 {
        Seq::empty()
    } else {
        let before = removals(from_db, from_fs, namespace_id, n - 1);
        if row_counts(from_db, n - 1) && on_disk(
            from_fs,
            from_db[n - 1].path,
            from_fs.len() as int,
        ) is None {
            before.push(tombstone(from_db[n - 1], namespace_id))
        } else {
            before
        }
    }
}

/// The changed files of a scan: for each of the first `n` stored rows that
/// counts for its path and whose path is on disk with another size or
/// modification time, the disk candidate, in the order of the rows.
pub open spec fn changes(from_db: Seq<FileRecordView>, from_fs: Seq<FormView>, n: int) -> Seq<
    FormView,
>
    decreases n,
{
    if n <= 0 {
        Seq::empty()
    } else {
        let before = changes(from_db, from_fs, n - 1);
        match on_disk(from_fs, from_db[n - 1].path, from_fs.len() as int) {
            Some(f) => if row_counts(from_db, n - 1) && !same_file_state(from_db[n - 1], f) {
                before.push(f)
            } else {
                before
            },
            None => before,
        }
    }
}

/// The new files of a scan: each of the first `n` disk candidates that
/// counts for its path and whose path no stored row has, in the order of
/// the candidates.
pub open spec fn additions(from_db: Seq<FileRecordView>, from_fs: Seq<FormView>, n: int) -> Seq<
    FormView,
>
    decreases n,
{
    if n <= 0 {
        Seq::empty()
    } else {
        let before = additions(from_db, from_fs, n - 1);
        if candidate_counts(from_fs, n - 1) && !in_db(
            from_db,
            from_fs[n - 1].path,
            from_db.len() as int,
        ) {
            before.push(from_fs[n - 1])
        } else {
            before
        }
    }
}

/// The rows a scan inserts besides the tombstones: the changed files, then
/// the new ones.
pub open spec fn insertions(from_db: Seq<FileRecordView>, from_fs: Seq<FormView>) -> Seq<
    FormView,
> {
    changes(from_db, from_fs, from_db.len() as int) + additions(
        from_db,
        from_fs,
        from_fs.len() as int,
    )
}

/// No two of the forms have the same path.
pub open spec fn paths_distinct(forms: Seq<FormView>) -> bool {
    forall|i: int, j: int| 0 <= i < j < forms.len() ==> forms[i].path != forms[j].path
}

/// The candidate found for a path has that path.
pub proof fn lemma_on_disk_has_path(from_fs: Seq<FormView>, path: Seq<char>, n: int)
    requires
        n <= from_fs.len(),
    ensures
        on_disk(from_fs, path, n) is Some ==> on_disk(from_fs, path, n)->0.path == path,
    decreases n,
{
    if n > 0 && from_fs[n - 1].path != path {
        lemma_on_disk_has_path(from_fs, path, n - 1);
    }
}

/// A path that one of the first `n` rows has is a path of the rows.
pub proof fn lemma_in_db_found(from_db: Seq<FileRecordView>, path: Seq<char>, k: int, n: int)
    requires
        0 <= k < n <= from_db.len(),
        from_db[k].path == path,
    ensures
        in_db(from_db, path, n),
    decreases n,
{
    if n > k + 1 {
        lemma_in_db_found(from_db, path, k, n - 1);
    }
}

/// `form` has the path of one of the first `n` rows, and that row counts
/// for its path.
pub open spec fn from_row(from_db: Seq<FileRecordView>, n: int, form: FormView) -> bool {
    exists|i: int| 0 <= i < n && #[trigger] row_counts(from_db, i) && from_db[i].path == form.path
}

/// Every tombstone of a scan, and every changed file, has the path of a
/// row that counts for its path; and no two tombstones, and no two changed
/// files, have the same path.
pub proof fn lemma_rows_once(
    from_db: Seq<FileRecordView>,
    from_fs: Seq<FormView>,
    namespace_id: int,
    n: int,
)
    requires
        0 <= n <= from_db.len(),
    ensures
        forall|k: int|
            0 <= k < removals(from_db, from_fs, namespace_id, n).len() ==> from_row(
                from_db,
                n,
                #[trigger] removals(from_db, from_fs, namespace_id, n)[k],
            ),
        forall|k: int|
            0 <= k < changes(from_db, from_fs, n).len() ==> from_row(
                from_db,
                n,
                #[trigger] changes(from_db, from_fs, n)[k],
            ),
        paths_distinct(removals(from_db, from_fs, namespace_id, n)),
        paths_distinct(changes(from_db, from_fs, n)),
    decreases n,
{
    if n > 0 {
        lemma_rows_once(from_db, from_fs, namespace_id, n - 1);
        lemma_on_disk_has_path(from_fs, from_db[n - 1].path, from_fs.len() as int);
        let gone_before = removals(from_db, from_fs, namespace_id, n - 1);
        let gone = removals(from_db, from_fs, namespace_id, n);
        let changed_before = changes(from_db, from_fs, n - 1);
        let changed = changes(from_db, from_fs, n);
        assert forall|k: int| 0 <= k < gone.len() implies from_row(
            from_db,
            n,
            #[trigger] gone[k],
        ) by {
            if k < gone_before.len() {
                assert(gone[k] == gone_before[k]);
                assert(from_row(from_db, n - 1, gone_before[k]));
                let i = choose|i: int|
                    0 <= i < n - 1 && #[trigger] row_counts(from_db, i) && from_db[i].path
                        == gone_before[k].path;
                assert(row_counts(from_db, i));
            } else {
                assert(row_counts(from_db, n - 1));
            }
        }
        assert forall|k: int| 0 <= k < changed.len() implies from_row(
            from_db,
            n,
            #[trigger] changed[k],
        ) by {
            if k < changed_before.len() {
                assert(changed[k] == changed_before[k]);
                assert(from_row(from_db, n - 1, changed_before[k]));
                let i = choose|i: int|
                    0 <= i < n - 1 && #[trigger] row_counts(from_db, i) && from_db[i].path
                        == changed_before[k].path;
                assert(row_counts(from_db, i));
            } else {
                assert(row_counts(from_db, n - 1));
            }
        }
        assert forall|i: int, j: int| 0 <= i < j < gone.len() implies gone[i].path
            != gone[j].path by {
            if j >= gone_before.len() {
                assert(gone[i] == gone_before[i]);
                assert(from_row(from_db, n - 1, gone_before[i]));
                let r = choose|r: int|
                    0 <= r < n - 1 && #[trigger] row_counts(from_db, r) && from_db[r].path
                        == gone_before[i].path;
                assert(from_db[n - 1].path != from_db[r].path);
            } else {
                assert(gone[i] == gone_before[i] && gone[j] == gone_before[j]);
            }
        }
        assert forall|i: int, j: int| 0 <= i < j < changed.len() implies changed[i].path
            != changed[j].path by {
            if j >= changed_before.len() {
                assert(changed[i] == changed_before[i]);
                assert(from_row(from_db, n - 1, changed_before[i]));
                let r = choose|r: int|
                    0 <= r < n - 1 && #[trigger] row_counts(from_db, r) && from_db[r].path
                        == changed_before[i].path;
                assert(from_db[n - 1].path != from_db[r].path);
            } else {
                assert(changed[i] == changed_before[i] && changed[j] == changed_before[j]);
            }
        }
    }
}

/// `form` is one of the first `n` candidates, one that counts for its path
/// and whose path no row has.
pub open spec fn from_new_candidate(
    from_db: Seq<FileRecordView>,
    from_fs: Seq<FormView>,
    n: int,
    form: FormView,
) -> bool {
    exists|k: int|
        0 <= k < n && #[trigger] candidate_counts(from_fs, k) && from_fs[k] == form && !in_db(
            from_db,
            form.path,
            from_db.len() as int,
        )
}

/// Every new file of a scan is a candidate that counts for its path and
/// whose path no row has; and no two new files have the same path.
pub proof fn lemma_candidates_once(from_db: Seq<FileRecordView>, from_fs: Seq<FormView>, n: int)
    requires
        0 <= n <= from_fs.len(),
    ensures
        forall|k: int|
            0 <= k < additions(from_db, from_fs, n).len() ==> from_new_candidate(
                from_db,
                from_fs,
                n,
                #[trigger] additions(from_db, from_fs, n)[k],
            ),
        paths_distinct(additions(from_db, from_fs, n)),
    decreases n,
{
    if n > 0 {
        lemma_candidates_once(from_db, from_fs, n - 1);
        let before = additions(from_db, from_fs, n - 1);
        let now = additions(from_db, from_fs, n);
        assert forall|k: int| 0 <= k < now.len() implies from_new_candidate(
            from_db,
            from_fs,
            n,
            #[trigger] now[k],
        ) by {
            if k < before.len() {
                assert(now[k] == before[k]);
                assert(from_new_candidate(from_db, from_fs, n - 1, before[k]));
                let c = choose|c: int|
                    0 <= c < n - 1 && #[trigger] candidate_counts(from_fs, c) && from_fs[c]
                        == before[k] && !in_db(from_db, before[k].path, from_db.len() as int);
                assert(candidate_counts(from_fs, c));
            } else {
                assert(candidate_counts(from_fs, n - 1));
            }
        }
        assert forall|i: int, j: int| 0 <= i < j < now.len() implies now[i].path
            != now[j].path by {
            if j >= before.len() {
                assert(now[i] == before[i]);
                assert(from_new_candidate(from_db, from_fs, n - 1, before[i]));
                let c = choose|c: int|
                    0 <= c < n - 1 && #[trigger] candidate_counts(from_fs, c) && from_fs[c]
                        == before[i] && !in_db(from_db, before[i].path, from_db.len() as int);
                assert(from_fs[n - 1].path != from_fs[c].path);
            } else {
                assert(now[i] == before[i] && now[j] == before[j]);
            }
        }
    }
}

/// What a scan inserts holds no path twice, whatever the two sides hold:
/// neither among the tombstones, nor among the changed and the new files.
pub proof fn lemma_scan_holds_no_path_twice(
    from_db: Seq<FileRecordView>,
    from_fs: Seq<FormView>,
    namespace_id: int,
)
    ensures
        paths_distinct(removals(from_db, from_fs, namespace_id, from_db.len() as int)),
        paths_distinct(insertions(from_db, from_fs)),
{
    lemma_rows_once(from_db, from_fs, namespace_id, from_db.len() as int);
    lemma_candidates_once(from_db, from_fs, from_fs.len() as int);
    let changed = changes(from_db, from_fs, from_db.len() as int);
    let fresh = additions(from_db, from_fs, from_fs.len() as int);
    let all = insertions(from_db, from_fs);
    assert forall|i: int, j: int| 0 <= i < j < all.len() implies all[i].path != all[j].path by {
        if j < changed.len() {
            assert(all[i] == changed[i] && all[j] == changed[j]);
        } else if i >= changed.len() {
            assert(all[i] == fresh[i - changed.len()] && all[j] == fresh[j - changed.len()]);
        } else {
            assert(all[i] == changed[i] && all[j] == fresh[j - changed.len()]);
            assert(from_row(from_db, from_db.len() as int, changed[i]));
            let r = choose|r: int|
                0 <= r < from_db.len() && #[trigger] row_counts(from_db, r) && from_db[r].path
                    == changed[i].path;
            lemma_in_db_found(from_db, changed[i].path, r, from_db.len() as int);
            assert(from_new_candidate(
                from_db,
                from_fs,
                from_fs.len() as int,
                fresh[j - changed.len()],
            ));
        }
    }
}

/// The disk candidate for the path of `record`, if there is one.
fn find_on_disk<'a>(from_fs: &'a Vec<CreateForm>, record: &FileRecord) -> (r: Option<
    &'a CreateForm,
>)
    ensures
        match r {
            Some(f) => on_disk(create_views(from_fs@), record@.path, from_fs@.len() as int)
                == Some(f@),
            None => on_disk(create_views(from_fs@), record@.path, from_fs@.len() as int) is None,
        },
{
    let mut k: usize = from_fs.len();
    while k > 0
        invariant
            k <= from_fs@.len(),
            on_disk(create_views(from_fs@), record@.path, from_fs@.len() as int) == on_disk(
                create_views(from_fs@),
                record@.path,
                k as int,
            ),
        decreases k,
    {
        if from_fs[k - 1].path == record.path {
            return Some(&from_fs[k - 1]);
        }
        k -= 1;
    }
    None
}

/// Whether a stored row has the path of `form`.
fn find_in_db(from_db: &Vec<FileRecord>, form: &CreateForm) -> (r: bool)
    ensures
        r == in_db(record_views(from_db@), form@.path, from_db@.len() as int),
{
    let mut k: usize = 0;
    while k < from_db.len()
        invariant
            k <= from_db@.len(),
            !in_db(record_views(from_db@), form@.path, k as int),
        decreases from_db@.len() - k,
    {
        if from_db[k].path == form.path {
            proof {
                lemma_in_db_found(
                    record_views(from_db@),
                    form@.path,
                    k as int,
                    from_db@.len() as int,
                );
            }
            return true;
        }
        k += 1;
    }
    false
}

/// Whether row `i` counts for its path.
fn row_is_last(from_db: &Vec<FileRecord>, i: usize) -> (r: bool)
    requires
        i < from_db@.len(),
    ensures
        r == row_counts(record_views(from_db@), i as int),
{
    let n: usize = from_db.len();
    let mut j: usize = i + 1;
    while j < n
        invariant
            n == from_db@.len(),
            i < j <= n,
            forall|k: int|
                i < k < j ==> (#[trigger] record_views(from_db@)[k]).path != record_views(
                    from_db@,
                )[i as int].path,
        decreases n - j,
    {
        if from_db[j].path == from_db[i].path {
            proof {
                assert(record_views(from_db@)[j as int].path == record_views(
                    from_db@,
                )[i as int].path);
            }
            return false;
        }
        j += 1;
    }
    true
}

/// Whether candidate `k` counts for its path.
fn candidate_is_last(from_fs: &Vec<CreateForm>, k: usize) -> (r: bool)
    requires
        k < from_fs@.len(),
    ensures
        r == candidate_counts(create_views(from_fs@), k as int),
{
    let n: usize = from_fs.len();
    let mut j: usize = k + 1;
    while j < n
        invariant
            n == from_fs@.len(),
            k < j <= n,
            forall|m: int|
                k < m < j ==> (#[trigger] create_views(from_fs@)[m]).path != create_views(
                    from_fs@,
                )[k as int].path,
        decreases n - j,
    {
        if from_fs[j].path == from_fs[k].path {
            proof {
                assert(create_views(from_fs@)[j as int].path == create_views(
                    from_fs@,
                )[k as int].path);
            }
            return false;
        }
        j += 1;
    }
    true
}

/// Compares the files the registry believes to exist with the candidates
/// found on disk. Returns the tombstones to insert, for stored files that
/// are gone, and the rows to insert, for files that changed or are new.
/// Each side is read as a map from path: where a path occurs twice on one
/// side, the later entry counts. So no path is answered twice.
pub fn compare_records(from_db: &Vec<FileRecord>, from_fs: &Vec<CreateForm>, namespace_id: i32) -> (r:
    (Vec<DeleteForm>, Vec<CreateForm>))
    ensures
        delete_views(r.0@) == removals(
            record_views(from_db@),
            create_views(from_fs@),
            namespace_id as int,
            from_db@.len() as int,
        ),
        create_views(r.1@) == insertions(record_views(from_db@), create_views(from_fs@)),
        paths_distinct(delete_views(r.0@)),
        paths_distinct(create_views(r.1@)),
{
    let mut to_remove: Vec<DeleteForm> = Vec::new();
    let mut to_add: Vec<CreateForm> = Vec::new();
    let ghost db = record_views(from_db@);
    let ghost fs = create_views(from_fs@);
    let mut i: usize = 0;
    proof {
        lemma_scan_holds_no_path_twice(db, fs, namespace_id as int);
        assert(delete_views(to_remove@) =~= removals(db, fs, namespace_id as int, 0));
        assert(create_views(to_add@) =~= changes(db, fs, 0));
    }
    while i < from_db.len()
        invariant
            i <= from_db@.len(),
            db == record_views(from_db@),
            fs == create_views(from_fs@),
            delete_views(to_remove@) == removals(db, fs, namespace_id as int, i as int),
            create_views(to_add@) == changes(db, fs, i as int),
        decreases from_db@.len() - i,
    {
        let db_file = &from_db[i];
        if row_is_last(from_db, i) {
            match find_on_disk(from_fs, db_file) {
                Some(disk_file) => {
                    if db_file != disk_file {
                        let copy = disk_file.clone();
                        proof {
                            assert(create_views(to_add@.push(copy)) =~= create_views(
                                to_add@,
                            ).push(copy@));
                        }
                        to_add.push(copy);
                    }
                },
                None => {
                    let form = build_delete_form(db_file, namespace_id);
                    proof {
                        assert(delete_views(to_remove@.push(form)) =~= delete_views(
                            to_remove@,
                        ).push(form@));
                    }
                    to_remove.push(form);
                },
            }
        }
        i += 1;
    }
    let ghost changed = create_views(to_add@);
    let mut k: usize = 0;
    proof {
        assert(changed + additions(db, fs, 0) =~= changed);
    }
    while k < from_fs.len()
        invariant
            k <= from_fs@.len(),
            db == record_views(from_db@),
            fs == create_views(from_fs@),
            changed == changes(db, fs, from_db@.len() as int),
            create_views(to_add@) == changed + additions(db, fs, k as int),
        decreases from_fs@.len() - k,
    {
        let disk_file = &from_fs[k];
        if candidate_is_last(from_fs, k) && !find_in_db(from_db, disk_file) {
            let copy = disk_file.clone();
            proof {
                assert(create_views(to_add@.push(copy)) =~= create_views(to_add@).push(copy@));
                assert(changed + additions(db, fs, k as int).push(copy@) =~= (changed + additions(
                    db,
                    fs,
                    k as int,
                )).push(copy@));
            }
            to_add.push(copy);
        }
        k += 1;
    }
    (to_remove, to_add)
}

/// One scan: brings the registry of the tenant `namespace_id` in line with
/// the candidates `from_fs` found on disk, in one batch, and says whether
/// anything was inserted. Nothing is inserted where the row ids run out.
pub fn check_index_once(registry: &mut Registry, from_fs: &Vec<CreateForm>, namespace_id: i32) -> (r:
    Result<bool, SyncError>)
    ensures
        ({
            let before = old(registry)@;
            let from_db = live_rows(before, namespace_id as int, before.len() as int);
            let gone = removals(
                from_db,
                create_views(from_fs@),
                namespace_id as int,
                from_db.len() as int,
            );
            let fresh = insertions(from_db, create_views(from_fs@));
            match r {
                Ok(changed) => {
                    &&& changed == (gone.len() + fresh.len() > 0)
                    &&& final(registry)@ == appended(
                        appended(before, gone, next_id(before)),
                        fresh,
                        next_id(before) + gone.len(),
                    )
                },
                Err(e) => {
                    &&& next_id(before) + gone.len() + fresh.len() - 1 > i32::MAX
                    &&& final(registry)@ == before
                    &&& e@ == SyncErrorView::DBQueryError(full_message())
                },
            }
        }),
{
    let from_db = registry.non_deleted(namespace_id);
    let (to_remove, to_add) = compare_records(&from_db, from_fs, namespace_id);
    if !to_remove.is_empty() || !to_add.is_empty() {
        match registry.apply_batch(&to_remove, &to_add) {
            Ok(_) => Ok(true),
            Err(e) => Err(e),
        }
    } else {
        proof {
            let before = old(registry)@;
            assert(appended(before, delete_views(to_remove@), next_id(before)) =~= before);
            assert(appended(before, create_views(to_add@), next_id(before)) =~= before);
        }
        Ok(false)
    }
}

/// Seconds between two scans when the watcher reports nothing.
pub const CHECK_INTERVAL_WAIT_SEC: u64 = 61;

/// What happened since the indexer loop last said what to do.
#[derive(Debug)]
pub enum IndexerEvent {
    /// The loop begins.
    Start,
    /// A scan ended; `Ok` says whether it changed the registry.
    ScanDone(Result<bool, SyncError>),
    /// The interval is over, or the watcher reported a change.
    WaitDone,
    /// The session was cancelled while the loop waited.
    Cancelled,
}

/// What the indexer loop does next.
#[derive(Debug)]
pub enum IndexerAction {
    /// Walk the storage root and scan. The status is `Indexing`.
    Scan,
    /// Tell the syncer that the registry changed, if `notify` says so; then
    /// wait for so many seconds, or until the watcher reports a change.
    Wait { seconds: u64, notify: Option<IndexerUpdateEvent> },
    /// End the loop; nothing is wrong.
    Stop,
    /// End the loop with this error.
    Fail(SyncError),
}

/// What the indexer loop does next. A cancelled session ends the loop. A
/// scan follows the start and every wait. After a scan the loop waits for
/// `CHECK_INTERVAL_WAIT_SEC`, and the syncer is told if the scan changed
/// the registry. A scan that failed on a file does not end the loop: the
/// next scan sees the file again. Any other failure of a scan ends the
/// loop with its error.
pub open spec fn indexer_next(event: IndexerEvent, cancelled: bool) -> IndexerAction {
    match event {
        IndexerEvent::Cancelled => IndexerAction::Stop,
        IndexerEvent::ScanDone(Err(e)) => if e@ is IoError {
            if cancelled {
                IndexerAction::Stop
            } else {
                IndexerAction::Wait { seconds: CHECK_INTERVAL_WAIT_SEC, notify: None }
            }
        } else {
            IndexerAction::Fail(e)
        },
        IndexerEvent::ScanDone(Ok(changed)) => if cancelled {
            IndexerAction::Stop
        } else {
            IndexerAction::Wait {
                seconds: CHECK_INTERVAL_WAIT_SEC,
                notify: if changed {
                    Some(IndexerUpdateEvent::Updated)
                } else {
                    None
                },
            }
        },
        IndexerEvent::Start | IndexerEvent::WaitDone => if cancelled {
            IndexerAction::Stop
        } else {
            IndexerAction::Scan
        },
    }
}

/// One decision of the indexer loop: what to do after `event`, given
/// whether the session is cancelled by now.
pub fn run(event: IndexerEvent, cancelled: bool) -> (action: IndexerAction)
    ensures
        action == indexer_next(event, cancelled),
{
    match event {
        IndexerEvent::Cancelled => IndexerAction::Stop,
        IndexerEvent::ScanDone(Err(e)) => {
            let on_a_file = match &e {
                SyncError::IoError { .. } => true,
                _ => false,
            };
            if !on_a_file {
                IndexerAction::Fail(e)
            } else if cancelled {
                IndexerAction::Stop
            } else {
                IndexerAction::Wait { seconds: CHECK_INTERVAL_WAIT_SEC, notify: None }
            }
        },
        IndexerEvent::ScanDone(Ok(changed)) => {
            if cancelled {
                IndexerAction::Stop
            } else if changed {
                IndexerAction::Wait {
                    seconds: CHECK_INTERVAL_WAIT_SEC,
                    notify: Some(IndexerUpdateEvent::Updated),
                }
            } else {
                IndexerAction::Wait { seconds: CHECK_INTERVAL_WAIT_SEC, notify: None }
            }
        },
        _ => {
            if cancelled {
                IndexerAction::Stop
            } else {
                IndexerAction::Scan
            }
        },
    }
}

} // verus!
