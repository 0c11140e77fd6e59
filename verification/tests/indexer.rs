use cooklang_sync_client::errors::SyncError;
use cooklang_sync_client::indexer::{
    build_delete_form, build_file_record, check_index_once, compare_records, filter_eligible, run,
    IndexerAction, IndexerEvent, CHECK_INTERVAL_WAIT_SEC,
};
use cooklang_sync_client::models::{CreateForm, FileRecord, IndexerUpdateEvent, Timestamp};
use cooklang_sync_client::paths::{slash_form, strip_base, to_slash};
use cooklang_sync_client::registry::Registry;

fn disk(path: &str, size: i64, at: i128) -> CreateForm {
    CreateForm {
        jid: None,
        path: path.to_string(),
        deleted: false,
        size,
        modified_at: Timestamp { unix_nanos: at },
        namespace_id: 1,
    }
}

fn row(id: i32, path: &str, size: i64, at: i128) -> FileRecord {
    FileRecord {
        id,
        jid: Some(id),
        deleted: false,
        path: path.to_string(),
        size,
        modified_at: Timestamp { unix_nanos: at },
        namespace_id: 1,
    }
}

#[test]
fn eligible_files_are_text_or_binary_and_no_symlinks() {
    assert!(filter_eligible("recipes/a.cook", false));
    assert!(filter_eligible("img/a.PNG", false));
    assert!(filter_eligible("dir/.bookmarks", false));
    assert!(!filter_eligible("recipes/a.cook", true));
    assert!(!filter_eligible("recipes/a.txt", false));
    assert!(!filter_eligible(".cook", false));
    assert!(filter_eligible("notes.md/", false));
    assert!(filter_eligible("notes.md/.", false));
    assert!(filter_eligible("a/b.cook//", false));
    assert!(!filter_eligible("a.cook/..", false));
    assert!(!filter_eligible("/", false));
    assert!(!filter_eligible(".", false));
    assert!(!filter_eligible("./", false));
    assert!(!filter_eligible("", false));
    assert!(!filter_eligible("cook", false));
    assert!(filter_eligible("a.b.md", false));
    assert!(filter_eligible("x.J2", false));
}

#[test]
fn candidate_row_is_relative_to_the_root() {
    let f = build_file_record("/root/recipes/a.cook", "/root", 12, Timestamp { unix_nanos: 99 }, 4)
        .unwrap();
    assert_eq!(f.path, "recipes/a.cook");
    assert_eq!(f.size, 12);
    assert_eq!(f.jid, None);
    assert!(!f.deleted);
    assert_eq!(f.modified_at, Timestamp { unix_nanos: 99 });
    assert_eq!(f.namespace_id, 4);
    let f = build_file_record("/root/a.cook", "/root/", 0, Timestamp { unix_nanos: 0 }, 4).unwrap();
    assert_eq!(f.path, "a.cook");
}

#[test]
fn candidate_outside_the_root_is_refused() {
    let at = Timestamp { unix_nanos: 0 };
    assert_eq!(
        build_file_record("/other/a.cook", "/root", 1, at, 1).unwrap_err(),
        SyncError::StripPrefix
    );
    assert_eq!(
        build_file_record("/rootless/a.cook", "/root", 1, at, 1).unwrap_err(),
        SyncError::StripPrefix
    );
    assert_eq!(
        build_file_record("/root/a.cook", "/root", u64::MAX, at, 1).unwrap_err(),
        SyncError::Convert
    );
    assert_eq!(
        build_file_record("/root/a.cook", "/root", i64::MAX as u64, at, 1).unwrap().size,
        i64::MAX
    );
}

#[test]
fn strip_base_cases() {
    assert_eq!(strip_base("/a/b", "/a"), Some("b".to_string()));
    assert_eq!(strip_base("/a/b", "/a/"), Some("b".to_string()));
    assert_eq!(strip_base("/a", "/a"), Some("".to_string()));
    assert_eq!(strip_base("a/b", ""), Some("a/b".to_string()));
    assert_eq!(strip_base("/ab", "/a"), None);
    assert_eq!(strip_base("/a", "/a/b"), None);
}

#[test]
fn slash_form_of_a_slash_path_is_itself_here() {
    assert_eq!(to_slash("recipes/a.cook"), Ok("recipes/a.cook".to_string()));
}

#[test]
fn a_plain_slash_path_is_its_own_slash_form() {
    for path in ["", "/", "a", "/a/b", "a/b/c.cook", "./a", ".", "..", "a/../b", "C:/x/y", ".bookmarks", "a b/é.md"] {
        assert_eq!(to_slash(path), Ok(path.to_string()), "{:?}", path);
    }
}

#[test]
fn tombstone_carries_size_and_time_over() {
    let t = build_delete_form(&row(3, "a.cook", 44, 55), 9);
    assert_eq!(t.path, "a.cook");
    assert_eq!(t.jid, None);
    assert!(t.deleted);
    assert_eq!(t.size, 44);
    assert_eq!(t.modified_at, Timestamp { unix_nanos: 55 });
    assert_eq!(t.namespace_id, 9);
}

#[test]
fn compare_finds_gone_changed_and_new_files() {
    let from_db = vec![row(1, "gone.cook", 1, 1), row(2, "same.cook", 2, 2), row(3, "changed.cook", 3, 3)];
    let from_fs = vec![disk("new.cook", 9, 9), disk("changed.cook", 3, 4), disk("same.cook", 2, 2)];
    let (to_remove, to_add) = compare_records(&from_db, &from_fs, 1);
    assert_eq!(to_remove.len(), 1);
    assert_eq!(to_remove[0].path, "gone.cook");
    assert!(to_remove[0].deleted);
    let added: Vec<&str> = to_add.iter().map(|f| f.path.as_str()).collect();
    assert_eq!(added, vec!["changed.cook", "new.cook"]);
    assert_eq!(to_add[0].modified_at, Timestamp { unix_nanos: 4 });
}

#[test]
fn compare_of_equal_sides_finds_nothing() {
    let from_db = vec![row(1, "a.cook", 1, 1)];
    let from_fs = vec![disk("a.cook", 1, 1)];
    let (to_remove, to_add) = compare_records(&from_db, &from_fs, 1);
    assert!(to_remove.is_empty());
    assert!(to_add.is_empty());
    let (to_remove, to_add) = compare_records(&Vec::new(), &Vec::new(), 1);
    assert!(to_remove.is_empty());
    assert!(to_add.is_empty());
}

#[test]
fn a_scan_brings_the_registry_in_line_and_the_next_one_finds_nothing() {
    let mut reg = Registry::new();
    let from_fs = vec![disk("a.cook", 1, 1), disk("b.cook", 2, 2)];
    assert_eq!(check_index_once(&mut reg, &from_fs, 1), Ok(true));
    assert_eq!(reg.len(), 2);
    assert_eq!(check_index_once(&mut reg, &from_fs, 1), Ok(false));
    assert_eq!(reg.len(), 2);

    let from_fs = vec![disk("b.cook", 2, 5)];
    assert_eq!(check_index_once(&mut reg, &from_fs, 1), Ok(true));
    assert_eq!(reg.len(), 4);
    assert!(reg.rows()[2].deleted);
    assert_eq!(reg.rows()[2].path, "a.cook");
    assert_eq!(reg.rows()[2].jid, None);
    assert_eq!(reg.rows()[3].path, "b.cook");
    assert_eq!(reg.rows()[3].modified_at, Timestamp { unix_nanos: 5 });
    assert_eq!(check_index_once(&mut reg, &from_fs, 1), Ok(false));
    let pending: Vec<i32> = reg.updated_locally(1).iter().map(|r| r.id).collect();
    assert_eq!(pending, vec![3, 4]);
}

#[test]
fn a_scan_of_one_tenant_leaves_the_others_alone() {
    let mut reg = Registry::new();
    assert_eq!(check_index_once(&mut reg, &vec![disk("a.cook", 1, 1)], 1), Ok(true));
    let mut other = disk("a.cook", 1, 1);
    other.namespace_id = 2;
    assert_eq!(check_index_once(&mut reg, &vec![other], 2), Ok(true));
    assert_eq!(reg.len(), 2);
    assert_eq!(reg.non_deleted(1).len(), 1);
    assert_eq!(reg.non_deleted(2).len(), 1);
}

#[test]
fn indexer_loop_decisions() {
    assert!(matches!(run(IndexerEvent::Start, false), IndexerAction::Scan));
    assert!(matches!(run(IndexerEvent::Start, true), IndexerAction::Stop));
    assert!(matches!(run(IndexerEvent::WaitDone, false), IndexerAction::Scan));
    assert!(matches!(run(IndexerEvent::Cancelled, false), IndexerAction::Stop));
    assert!(matches!(
        run(IndexerEvent::ScanDone(Ok(true)), false),
        IndexerAction::Wait { seconds: CHECK_INTERVAL_WAIT_SEC, notify: Some(IndexerUpdateEvent::Updated) }
    ));
    assert!(matches!(
        run(IndexerEvent::ScanDone(Ok(false)), false),
        IndexerAction::Wait { seconds: 61, notify: None }
    ));
    assert!(matches!(run(IndexerEvent::ScanDone(Ok(true)), true), IndexerAction::Stop));
    let io = SyncError::from_io_error("a.cook", "gone");
    assert!(matches!(
        run(IndexerEvent::ScanDone(Err(io)), false),
        IndexerAction::Wait { seconds: 61, notify: None }
    ));
    assert!(matches!(
        run(IndexerEvent::ScanDone(Err(SyncError::StripPrefix)), false),
        IndexerAction::Fail(SyncError::StripPrefix)
    ));
}

#[test]
fn slash_form_passes_the_form_on_or_refuses() {
    assert_eq!(slash_form(Some("a/b.cook".to_string())), Ok("a/b.cook".to_string()));
    assert_eq!(slash_form(Some("".to_string())), Ok("".to_string()));
    assert_eq!(
        slash_form(None),
        Err(SyncError::Unknown("path is not valid Unicode".to_string()))
    );
}

#[test]
fn a_path_twice_on_one_side_counts_once_and_the_later_entry_counts() {
    let from_db = vec![row(1, "a.cook", 1, 1), row(2, "a.cook", 2, 2), row(3, "gone.cook", 1, 1), row(4, "gone.cook", 9, 9)];
    let from_fs = vec![disk("a.cook", 7, 7), disk("new.cook", 1, 1), disk("a.cook", 2, 3), disk("new.cook", 5, 5)];
    let (to_remove, to_add) = compare_records(&from_db, &from_fs, 1);
    assert_eq!(to_remove.len(), 1);
    assert_eq!(to_remove[0].path, "gone.cook");
    assert_eq!(to_remove[0].size, 9);
    let added: Vec<(&str, i64)> = to_add.iter().map(|f| (f.path.as_str(), f.size)).collect();
    assert_eq!(added, vec![("a.cook", 2), ("new.cook", 5)]);
    assert_eq!(to_add[0].modified_at, Timestamp { unix_nanos: 3 });

    let from_fs = vec![disk("a.cook", 7, 7), disk("a.cook", 2, 2)];
    let (to_remove, to_add) = compare_records(&vec![row(1, "a.cook", 2, 2)], &from_fs, 1);
    assert!(to_remove.is_empty());
    assert!(to_add.is_empty());
}
