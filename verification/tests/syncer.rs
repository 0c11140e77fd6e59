use cooklang_sync_client::cache::InMemoryCache;
use cooklang_sync_client::chunker::Chunker;
use cooklang_sync_client::errors::SyncError;
use cooklang_sync_client::models::{CreateForm, FileRecord, SyncStatus, Timestamp};
use cooklang_sync_client::registry::Registry;
use cooklang_sync_client::remote::{CommitResultStatus, ResponseFileRecord};
use cooklang_sync_client::syncer::{
    build_delete_form, build_file_record, collect_missing, download_loop, needs_download,
    pass_answer, plan_record,
    record_deleted, record_saved, run, upload_loop, DownloadAction, DownloadEvent, DriverAction,
    FileAction, SyncLoop, UploadAction, UploadEvent, UploadPass, UploadQueue,
    INTERVAL_CHECK_UPLOAD_SEC, MAX_UPLOAD_SIZE, RETRY_DELAY_SEC, UPLOAD_START_DELAY_SEC,
};

fn chunker() -> Chunker {
    Chunker::new(InMemoryCache::new(1000, 100_000_000), "/root".to_string())
}

fn pending_row(id: i32, path: &str, deleted: bool) -> FileRecord {
    FileRecord {
        id,
        jid: None,
        deleted,
        path: path.to_string(),
        size: 1,
        modified_at: Timestamp { unix_nanos: 1 },
        namespace_id: 1,
    }
}

fn listed(id: i32, path: &str, deleted: bool, chunk_ids: &str) -> ResponseFileRecord {
    ResponseFileRecord { id, path: path.to_string(), deleted, chunk_ids: chunk_ids.to_string() }
}

fn sizes(batches: &Vec<Vec<(String, Vec<u8>)>>) -> Vec<Vec<usize>> {
    batches.iter().map(|b| b.iter().map(|c| c.1.len()).collect()).collect()
}

#[test]
fn queue_opens_a_new_batch_before_the_limit_is_passed() {
    assert_eq!(MAX_UPLOAD_SIZE, 3_000_000);
    let mut q = UploadQueue::new();
    q.push("a".to_string(), vec![0u8; 2_000_000]);
    q.push("b".to_string(), vec![0u8; 1_000_000]);
    q.push("c".to_string(), vec![0u8; 1]);
    q.push("d".to_string(), vec![0u8; 5]);
    q.push("e".to_string(), vec![0u8; 4_000_000]);
    q.push("f".to_string(), vec![0u8; 7]);
    let batches = q.into_batches();
    assert_eq!(sizes(&batches), vec![vec![2_000_000, 1_000_000], vec![1, 5], vec![4_000_000], vec![7]]);
    let order: Vec<&str> = batches.iter().flatten().map(|c| c.0.as_str()).collect();
    assert_eq!(order, vec!["a", "b", "c", "d", "e", "f"]);
}

#[test]
fn queue_sends_no_empty_batch() {
    assert!(UploadQueue::new().into_batches().is_empty());
    let mut q = UploadQueue::new();
    q.push("a".to_string(), vec![0u8; 3_000_001]);
    assert_eq!(sizes(&q.into_batches()), vec![vec![3_000_001]]);
    let mut q = UploadQueue::new();
    q.push("a".to_string(), vec![0u8; 3_000_000]);
    q.push("b".to_string(), Vec::new());
    assert_eq!(sizes(&q.into_batches()), vec![vec![3_000_000, 0]]);
}

#[test]
fn chunk_ids_of_a_tombstone_is_the_null_chunk() {
    let mut c = chunker();
    assert_eq!(UploadPass::chunk_ids(&mut c, &pending_row(1, "a.cook", true), &Vec::new()), Ok("".to_string()));
    assert_eq!(
        UploadPass::chunk_ids(&mut c, &pending_row(1, "a.txt", true), &b"ignored".to_vec()),
        Ok("".to_string())
    );
}

#[test]
fn chunk_ids_of_a_file_are_its_ids_with_commas() {
    let mut c = chunker();
    assert_eq!(
        UploadPass::chunk_ids(&mut c, &pending_row(1, "a.cook", false), &b"eggs\nbacon\n".to_vec()),
        Ok("e9c3c1c06f,10da16ba98".to_string())
    );
    assert!(c.check_chunk("e9c3c1c06f"));
    assert_eq!(
        UploadPass::chunk_ids(&mut c, &pending_row(1, "empty.cook", false), &Vec::new()),
        Ok("".to_string())
    );
    assert_eq!(
        UploadPass::chunk_ids(&mut c, &pending_row(1, "a.txt", false), &b"x".to_vec()),
        Err(SyncError::UnlistedFileFormat("a.txt".to_string()))
    );
}

#[test]
fn record_of_success_attaches_the_jid() {
    let mut reg = Registry::new();
    reg.create(&vec![CreateForm {
        jid: None,
        path: "a.cook".to_string(),
        deleted: false,
        size: 1,
        modified_at: Timestamp { unix_nanos: 1 },
        namespace_id: 1,
    }])
    .unwrap();
    let c = chunker();
    let mut pass = UploadPass::new();
    let row = reg.updated_locally(1)[0].clone();
    assert_eq!(pass.record(&mut reg, &c, &row, &CommitResultStatus::Success(12)), Ok(()));
    assert_eq!(reg.rows()[0].jid, Some(12));
    assert!(reg.updated_locally(1).is_empty());
    let out = pass.finish();
    assert!(out.all_committed);
    assert!(!out.idle);
    assert!(out.batches.is_empty());
    assert!(matches!(
        UploadPass::new().record(&mut reg, &c, &row, &CommitResultStatus::Success(13)),
        Err(SyncError::DBQueryError(_))
    ));
}

#[test]
fn record_of_need_chunks_queues_them_from_the_cache() {
    let mut reg = Registry::new();
    let mut c = chunker();
    c.save_chunk("aa", vec![1, 2]).unwrap();
    c.save_chunk("bb", vec![3]).unwrap();
    let mut pass = UploadPass::new();
    let row = pending_row(1, "a.cook", false);
    assert_eq!(
        pass.record(&mut reg, &c, &row, &CommitResultStatus::NeedChunks("bb,aa".to_string())),
        Ok(())
    );
    let out = pass.finish();
    assert!(!out.all_committed);
    assert!(!out.idle);
    assert_eq!(
        out.batches,
        vec![vec![("bb".to_string(), vec![3u8]), ("aa".to_string(), vec![1u8, 2u8])]]
    );
}

#[test]
fn record_of_a_chunk_lost_from_the_cache_fails_the_pass() {
    let mut reg = Registry::new();
    let mut c = chunker();
    c.save_chunk("aa", vec![1, 2]).unwrap();
    let mut pass = UploadPass::new();
    let row = pending_row(1, "a.cook", false);
    assert_eq!(
        pass.record(&mut reg, &c, &row, &CommitResultStatus::NeedChunks("aa,zz".to_string())),
        Err(SyncError::GetFromCacheError)
    );
}

#[test]
fn a_pass_without_rows_may_rest() {
    let out = UploadPass::new().finish();
    assert!(out.all_committed);
    assert!(out.idle);
    assert!(out.batches.is_empty());
}

#[test]
fn collect_missing_queues_what_the_cache_lacks() {
    let mut c = chunker();
    c.save_chunk("aa", vec![1]).unwrap();
    let mut queue: Vec<String> = vec!["first".to_string()];
    assert_eq!(collect_missing(&mut c, &listed(7, "m.menu", false, "aa,bb,,cc,bb"), None, &mut queue), Ok(()));
    assert_eq!(queue, vec!["first", "bb", "cc", "bb"]);
    assert_eq!(collect_missing(&mut c, &listed(8, "gone.menu", true, "zz"), None, &mut queue), Ok(()));
    assert_eq!(queue.len(), 4);
}

#[test]
fn collect_missing_warms_the_cache_with_the_old_file() {
    let mut c = chunker();
    let mut queue: Vec<String> = Vec::new();
    let old = b"eggs\nham\n".to_vec();
    assert_eq!(
        collect_missing(&mut c, &listed(7, "a.cook", false, "e9c3c1c06f,10da16ba98"), Some(&old), &mut queue),
        Ok(())
    );
    assert_eq!(queue, vec!["10da16ba98"]);
    assert_eq!(
        collect_missing(&mut c, &listed(7, "a.txt", false, "aa"), Some(&old), &mut queue),
        Err(SyncError::UnlistedFileFormat("a.txt".to_string()))
    );
    assert_eq!(queue, vec!["10da16ba98"]);
}

#[test]
fn plan_record_writes_the_chunks_in_order_or_removes() {
    let mut c = chunker();
    c.save_chunk("aa", b"one ".to_vec()).unwrap();
    c.save_chunk("bb", b"two".to_vec()).unwrap();
    match plan_record(&c, &listed(7, "menus/mon.menu", false, "aa,bb,aa")).unwrap() {
        FileAction::Write(w) => {
            assert_eq!(w.path, "/root/menus/mon.menu");
            assert_eq!(w.content, b"one twoone ".to_vec());
        }
        other => panic!("{:?}", other),
    }
    match plan_record(&c, &listed(7, "empty.menu", false, "")).unwrap() {
        FileAction::Write(w) => assert_eq!(w.content, Vec::<u8>::new()),
        other => panic!("{:?}", other),
    }
    match plan_record(&c, &listed(9, "x", true, "")).unwrap() {
        FileAction::Remove(path) => assert_eq!(path, "/root/x"),
        other => panic!("{:?}", other),
    }
    assert!(matches!(
        plan_record(&c, &listed(7, "m.menu", false, "aa,zz")),
        Err(SyncError::GetFromCacheError)
    ));
}

#[test]
fn downloaded_rows_are_born_committed() {
    let at = Timestamp { unix_nanos: 77 };
    let f = build_file_record("m.menu", 7, 3, 11, at).unwrap();
    assert_eq!((f.jid, f.path.as_str(), f.deleted, f.size, f.modified_at, f.namespace_id), (Some(7), "m.menu", false, 11, at, 3));
    assert_eq!(build_file_record("m.menu", 7, 3, u64::MAX, at).unwrap_err(), SyncError::Convert);
    let d = build_delete_form("x", 9, 3, at);
    assert_eq!((d.jid, d.path.as_str(), d.deleted, d.size, d.modified_at, d.namespace_id), (Some(9), "x", true, 0, at, 3));

    let mut reg = Registry::new();
    assert_eq!(record_saved(&mut reg, &listed(7, "m.menu", false, "aa"), 3, 11, at), Ok(()));
    assert_eq!(record_deleted(&mut reg, &listed(9, "x", true, ""), 3, at), Ok(()));
    assert_eq!(reg.len(), 2);
    assert_eq!(reg.rows()[0].jid, Some(7));
    assert_eq!(reg.rows()[1].jid, Some(9));
    assert!(reg.rows()[1].deleted);
    assert_eq!(reg.latest_jid(3), 9);
    assert!(reg.updated_locally(3).is_empty());
    assert_eq!(record_saved(&mut reg, &listed(7, "m.menu", false, "aa"), 3, u64::MAX, at), Err(SyncError::Convert));
    assert_eq!(reg.len(), 2);
}

#[test]
fn download_loop_decisions() {
    assert!(matches!(download_loop(DownloadEvent::Start, false), DownloadAction::RunPass));
    assert!(matches!(download_loop(DownloadEvent::Start, true), DownloadAction::Stop));
    assert!(matches!(download_loop(DownloadEvent::PassDone(Ok(true)), false), DownloadAction::Poll));
    assert!(matches!(download_loop(DownloadEvent::PassDone(Ok(false)), false), DownloadAction::Poll));
    assert!(matches!(download_loop(DownloadEvent::PassDone(Ok(false)), true), DownloadAction::Stop));
    assert!(matches!(download_loop(DownloadEvent::PollDone(Ok(())), false), DownloadAction::RunPass));
    assert!(matches!(download_loop(DownloadEvent::PollDone(Ok(())), true), DownloadAction::Stop));
    assert!(matches!(download_loop(DownloadEvent::SleepDone, false), DownloadAction::RunPass));
    assert!(matches!(download_loop(DownloadEvent::Cancelled, false), DownloadAction::Stop));
    assert!(matches!(
        download_loop(DownloadEvent::PassDone(Err(SyncError::Unauthorized)), false),
        DownloadAction::Fail(SyncError::Unauthorized)
    ));
    assert!(matches!(
        download_loop(DownloadEvent::PassDone(Err(SyncError::Unauthorized)), true),
        DownloadAction::Fail(SyncError::Unauthorized)
    ));
    assert!(matches!(
        download_loop(DownloadEvent::PollDone(Err(SyncError::Unauthorized)), false),
        DownloadAction::Fail(SyncError::Unauthorized)
    ));
    assert!(matches!(
        download_loop(DownloadEvent::PassDone(Err(SyncError::Unknown("x".to_string()))), false),
        DownloadAction::Sleep(RETRY_DELAY_SEC)
    ));
    assert!(matches!(
        download_loop(DownloadEvent::PassDone(Err(SyncError::TransportError("x".to_string()))), false),
        DownloadAction::Sleep(61)
    ));
    assert!(matches!(download_loop(DownloadEvent::PassDone(Err(SyncError::GetFromCacheError)), false), DownloadAction::Poll));
    assert!(matches!(
        download_loop(DownloadEvent::PollDone(Err(SyncError::Unknown("x".to_string()))), false),
        DownloadAction::Sleep(61)
    ));
    assert!(matches!(
        download_loop(DownloadEvent::PollDone(Err(SyncError::Unknown("x".to_string()))), true),
        DownloadAction::Stop
    ));
}

#[test]
fn upload_loop_decisions() {
    assert!(matches!(upload_loop(UploadEvent::Start, false), UploadAction::Delay(UPLOAD_START_DELAY_SEC)));
    assert!(matches!(upload_loop(UploadEvent::Start, true), UploadAction::Delay(5)));
    assert!(matches!(upload_loop(UploadEvent::DelayDone, false), UploadAction::RunPass));
    assert!(matches!(upload_loop(UploadEvent::DelayDone, true), UploadAction::Stop));
    assert!(matches!(upload_loop(UploadEvent::PassDone(Ok(true)), false), UploadAction::Wait(INTERVAL_CHECK_UPLOAD_SEC)));
    assert!(matches!(upload_loop(UploadEvent::PassDone(Ok(true)), false), UploadAction::Wait(47)));
    assert!(matches!(upload_loop(UploadEvent::PassDone(Ok(false)), false), UploadAction::RunPass));
    assert!(matches!(upload_loop(UploadEvent::PassDone(Ok(false)), true), UploadAction::Stop));
    assert!(matches!(upload_loop(UploadEvent::WaitDone, false), UploadAction::RunPass));
    assert!(matches!(upload_loop(UploadEvent::Cancelled, false), UploadAction::Stop));
    assert!(matches!(
        upload_loop(UploadEvent::PassDone(Err(SyncError::GetFromCacheError)), false),
        UploadAction::Fail(SyncError::GetFromCacheError)
    ));
}

#[test]
fn actions_carry_their_status() {
    assert!(matches!(DownloadAction::RunPass.status(), Some(SyncStatus::Downloading)));
    assert!(matches!(DownloadAction::Poll.status(), Some(SyncStatus::Idle)));
    assert!(DownloadAction::Stop.status().is_none());
    assert!(DownloadAction::Sleep(61).status().is_none());
    assert!(matches!(UploadAction::RunPass.status(), Some(SyncStatus::Uploading)));
    assert!(matches!(UploadAction::Wait(47).status(), Some(SyncStatus::Idle)));
    assert!(UploadAction::Delay(5).status().is_none());
}

#[test]
fn driver_ends_when_both_loops_end_and_fails_with_the_first() {
    let mut s = run(false);
    assert!(s.is_running(SyncLoop::Download));
    assert!(s.is_running(SyncLoop::Upload));
    assert!(matches!(s.loop_ended(SyncLoop::Upload, Ok(())), DriverAction::KeepGoing));
    assert!(!s.is_running(SyncLoop::Upload));
    assert!(matches!(s.loop_ended(SyncLoop::Download, Ok(())), DriverAction::Finish));

    let mut s = run(true);
    assert!(!s.is_running(SyncLoop::Upload));
    assert!(matches!(s.loop_ended(SyncLoop::Download, Ok(())), DriverAction::Finish));

    let mut s = run(false);
    assert!(matches!(
        s.loop_ended(SyncLoop::Download, Err(SyncError::Unauthorized)),
        DriverAction::CancelAndFail(SyncError::Unauthorized)
    ));
    assert!(!s.is_running(SyncLoop::Upload));
    assert!(!s.is_running(SyncLoop::Download));
}

#[test]
fn a_chunk_that_several_rows_lack_is_queued_once() {
    let mut reg = Registry::new();
    let mut c = chunker();
    c.save_chunk("aa", vec![1, 2]).unwrap();
    c.save_chunk("bb", vec![3]).unwrap();
    let mut pass = UploadPass::new();
    let first = pending_row(1, "a.cook", false);
    let second = pending_row(2, "b.cook", false);
    pass.record(&mut reg, &c, &first, &CommitResultStatus::NeedChunks("aa,bb,aa".to_string())).unwrap();
    pass.record(&mut reg, &c, &second, &CommitResultStatus::NeedChunks("bb,aa".to_string())).unwrap();
    let out = pass.finish();
    assert_eq!(
        out.batches,
        vec![vec![("aa".to_string(), vec![1u8, 2u8]), ("bb".to_string(), vec![3u8])]]
    );
}

#[test]
fn queue_knows_what_it_holds() {
    let mut q = UploadQueue::new();
    assert!(!q.holds("a"));
    q.push("a".to_string(), vec![0u8; 3_000_001]);
    q.push("b".to_string(), vec![1]);
    assert!(q.holds("a"));
    assert!(q.holds("b"));
    assert!(!q.holds("c"));
    assert!(!q.holds(""));
}

#[test]
fn no_batch_of_several_chunks_passes_the_limit() {
    let mut q = UploadQueue::new();
    q.push("a".to_string(), vec![0u8; 2_000_000]);
    q.push("b".to_string(), vec![0u8; 2_000_000]);
    q.push("c".to_string(), vec![0u8; 999_999]);
    q.push("d".to_string(), vec![0u8; 2]);
    q.push("e".to_string(), vec![0u8; 3_000_000]);
    q.push("f".to_string(), Vec::new());
    let batches = q.into_batches();
    assert_eq!(sizes(&batches), vec![vec![2_000_000], vec![2_000_000, 999_999], vec![2], vec![3_000_000, 0]]);
    for batch in &batches {
        assert!(!batch.is_empty());
        let total: usize = batch.iter().map(|c| c.1.len()).sum();
        assert!(batch.len() == 1 || total <= MAX_UPLOAD_SIZE);
    }
}

#[test]
fn a_pass_fetches_when_chunks_are_missing_and_answers_whether_anything_was_listed() {
    assert!(!needs_download(&Vec::new()));
    assert!(needs_download(&vec!["aa".to_string()]));
    assert!(!pass_answer(&Vec::new()));
    assert!(pass_answer(&vec![listed(1, "a.cook", true, "")]));
}
