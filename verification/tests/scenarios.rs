use cooklang_sync_client::cache::InMemoryCache;
use cooklang_sync_client::chunker::Chunker;
use cooklang_sync_client::indexer::{build_file_record, check_index_once};
use cooklang_sync_client::models::Timestamp;
use cooklang_sync_client::multipart::BatchDecoder;
use cooklang_sync_client::registry::Registry;
use cooklang_sync_client::remote::{Body, CommitResultStatus, Remote, ResponseFileRecord};
use cooklang_sync_client::syncer::{
    collect_missing, download_loop, plan_record, record_deleted, record_saved, DownloadAction,
    DownloadEvent, FileAction, UploadPass,
};
use std::collections::BTreeMap;

const TENANT: i32 = 1;

/// A remote kept in memory: its chunks and its journal.
struct FakeRemote {
    chunks: BTreeMap<String, Vec<u8>>,
    journal: Vec<(String, bool, String)>,
}

impl FakeRemote {
    fn new() -> FakeRemote {
        FakeRemote { chunks: BTreeMap::new(), journal: Vec::new() }
    }

    fn commit(&mut self, fields: &Vec<(String, String)>) -> CommitResultStatus {
        let get = |name: &str| fields.iter().find(|f| f.0 == name).unwrap().1.clone();
        let chunk_ids = get("chunk_ids");
        let lacking: Vec<&str> = chunk_ids
            .split(',')
            .filter(|c| !c.is_empty() && !self.chunks.contains_key(*c))
            .collect();
        if lacking.is_empty() {
            self.journal.push((get("path"), get("deleted") == "true", chunk_ids));
            CommitResultStatus::Success(self.journal.len() as i32)
        } else {
            CommitResultStatus::NeedChunks(lacking.join(","))
        }
    }

    fn upload(&mut self, batch: Vec<(String, Vec<u8>)>) {
        for (id, bytes) in batch {
            self.chunks.insert(id, bytes);
        }
    }
}

/// The files of a storage root kept in memory.
type Disk = BTreeMap<String, Vec<u8>>;

fn scan(registry: &mut Registry, disk: &Disk) -> bool {
    let mut from_fs = Vec::new();
    for (path, bytes) in disk {
        let full = format!("/root/{}", path);
        from_fs.push(
            build_file_record(&full, "/root", bytes.len() as u64, Timestamp { unix_nanos: 5 }, TENANT)
                .unwrap(),
        );
    }
    check_index_once(registry, &from_fs, TENANT).unwrap()
}

/// One upload pass; returns whether everything was committed and the sizes
/// of the batches that were sent.
fn upload_pass(
    registry: &mut Registry,
    chunker: &mut Chunker,
    client: &Remote,
    remote: &mut FakeRemote,
    disk: &Disk,
) -> (bool, Vec<usize>) {
    let mut pass = UploadPass::new();
    for row in registry.updated_locally(TENANT) {
        let content = if row.deleted { Vec::new() } else { disk[&row.path].clone() };
        let list = UploadPass::chunk_ids(chunker, &row, &content).unwrap();
        let request = client.commit(&row.path, row.deleted, &list).unwrap();
        let answer = match request.body {
            Body::Form(fields) => remote.commit(&fields),
            other => panic!("{:?}", other),
        };
        pass.record(registry, chunker, &row, &answer).unwrap();
    }
    let outcome = pass.finish();
    let mut sent = Vec::new();
    for batch in outcome.batches {
        sent.push(batch.len());
        remote.upload(batch);
    }
    (outcome.all_committed, sent)
}

fn multipart(boundary: &str, remote: &FakeRemote, ids: &Vec<String>) -> Vec<u8> {
    let mut out = Vec::new();
    for id in ids {
        out.extend_from_slice(format!("--{}\r\nX-Chunk-ID: {}\r\n\r\n", boundary, id).as_bytes());
        out.extend_from_slice(&remote.chunks[id]);
        out.extend_from_slice(b"\r\n");
    }
    out.extend_from_slice(format!("--{}--\r\n", boundary).as_bytes());
    out
}

/// One download pass over the records that the remote lists.
fn download_pass(
    registry: &mut Registry,
    chunker: &mut Chunker,
    remote: &FakeRemote,
    disk: &mut Disk,
    records: &Vec<ResponseFileRecord>,
) {
    let mut queue: Vec<String> = Vec::new();
    for record in records {
        let existing = disk.get(&record.path);
        collect_missing(chunker, record, existing, &mut queue).unwrap();
    }
    if !queue.is_empty() {
        let mut decoder = BatchDecoder::new(Some("multipart/mixed; boundary=zzz")).unwrap();
        for piece in multipart("zzz", remote, &queue).chunks(5) {
            decoder.push(piece);
            while let Some((id, bytes)) = decoder.next().unwrap() {
                chunker.save_chunk(&id, bytes).unwrap();
            }
        }
    }
    for record in records {
        match plan_record(chunker, record).unwrap() {
            FileAction::Remove(path) => {
                record_deleted(registry, record, TENANT, Timestamp { unix_nanos: 9 }).unwrap();
                disk.remove(path.strip_prefix("/root/").unwrap());
            }
            FileAction::Write(w) => {
                let len = w.content.len() as u64;
                disk.insert(w.path.strip_prefix("/root/").unwrap().to_string(), w.content);
                record_saved(registry, record, TENANT, len, Timestamp { unix_nanos: 9 }).unwrap();
            }
        }
    }
}

fn setup() -> (Registry, Chunker, Remote, FakeRemote, Disk) {
    (
        Registry::new(),
        Chunker::new(InMemoryCache::new(1000, 100_000_000), "/root".to_string()),
        Remote::new("https://example.org", "token"),
        FakeRemote::new(),
        Disk::new(),
    )
}

#[test]
fn fresh_upload() {
    let (mut registry, mut chunker, client, mut remote, mut disk) = setup();
    disk.insert("recipes/a.cook".to_string(), b"eggs\nbacon\n".to_vec());

    assert!(scan(&mut registry, &disk));
    let (committed, sent) = upload_pass(&mut registry, &mut chunker, &client, &mut remote, &disk);
    assert!(!committed);
    assert_eq!(sent, vec![2]);
    let (committed, sent) = upload_pass(&mut registry, &mut chunker, &client, &mut remote, &disk);
    assert!(committed);
    assert!(sent.is_empty());

    assert_eq!(registry.len(), 1);
    assert_eq!(registry.rows()[0].jid, Some(1));
    assert_eq!(registry.rows()[0].path, "recipes/a.cook");
    assert_eq!(remote.chunks["e9c3c1c06f"], b"eggs\n");
    assert_eq!(remote.chunks["10da16ba98"], b"bacon\n");
    assert_eq!(remote.chunks.len(), 2);
    assert_eq!(
        remote.journal,
        vec![("recipes/a.cook".to_string(), false, "e9c3c1c06f,10da16ba98".to_string())]
    );
    let (committed, sent) = upload_pass(&mut registry, &mut chunker, &client, &mut remote, &disk);
    assert!(committed && sent.is_empty());
    assert_eq!(remote.journal.len(), 1);
}

#[test]
fn need_chunks_handshake() {
    let (mut registry, mut chunker, client, mut remote, mut disk) = setup();
    disk.insert("recipes/a.cook".to_string(), b"eggs\nbacon\n".to_vec());
    remote.chunks.insert("e9c3c1c06f".to_string(), b"eggs\n".to_vec());

    scan(&mut registry, &disk);
    let row = registry.updated_locally(TENANT)[0].clone();
    let list = UploadPass::chunk_ids(&mut chunker, &row, &disk["recipes/a.cook"]).unwrap();
    let request = client.commit(&row.path, row.deleted, &list).unwrap();
    let answer = match request.body {
        Body::Form(fields) => remote.commit(&fields),
        other => panic!("{:?}", other),
    };
    assert!(matches!(answer, CommitResultStatus::NeedChunks(ref s) if s == "10da16ba98"));
    let mut pass = UploadPass::new();
    pass.record(&mut registry, &chunker, &row, &answer).unwrap();
    let outcome = pass.finish();
    assert!(!outcome.all_committed);
    assert_eq!(outcome.batches, vec![vec![("10da16ba98".to_string(), b"bacon\n".to_vec())]]);
    for batch in outcome.batches {
        remote.upload(batch);
    }
    assert_eq!(registry.rows()[0].jid, None);

    let (committed, sent) = upload_pass(&mut registry, &mut chunker, &client, &mut remote, &disk);
    assert!(committed);
    assert!(sent.is_empty());
    assert_eq!(registry.rows()[0].jid, Some(1));
}

#[test]
fn download_new_file() {
    let (mut registry, mut chunker, _client, mut remote, mut disk) = setup();
    remote.chunks.insert("aaaaaaaaaa".to_string(), b"soup\n".to_vec());
    remote.chunks.insert("bbbbbbbbbb".to_string(), b"salad\n".to_vec());
    let records = vec![ResponseFileRecord {
        id: 7,
        path: "menus/mon.menu".to_string(),
        deleted: false,
        chunk_ids: "aaaaaaaaaa,bbbbbbbbbb".to_string(),
    }];
    assert_eq!(registry.latest_jid(TENANT), 0);

    download_pass(&mut registry, &mut chunker, &remote, &mut disk, &records);

    assert_eq!(disk["menus/mon.menu"], b"soup\nsalad\n");
    assert_eq!(registry.len(), 1);
    assert_eq!(registry.rows()[0].jid, Some(7));
    assert_eq!(registry.rows()[0].size, 11);
    assert!(!registry.rows()[0].deleted);
    assert_eq!(registry.latest_jid(TENANT), 7);
    assert!(registry.updated_locally(TENANT).is_empty());
}

#[test]
fn delete_propagation_outbound() {
    let (mut registry, mut chunker, client, mut remote, mut disk) = setup();
    disk.insert("recipes/a.cook".to_string(), b"eggs\n".to_vec());
    scan(&mut registry, &disk);
    upload_pass(&mut registry, &mut chunker, &client, &mut remote, &disk);
    upload_pass(&mut registry, &mut chunker, &client, &mut remote, &disk);
    assert_eq!(registry.rows()[0].jid, Some(1));

    disk.remove("recipes/a.cook");
    assert!(scan(&mut registry, &disk));
    assert_eq!(registry.len(), 2);
    assert!(registry.rows()[1].deleted);
    assert_eq!(registry.rows()[1].jid, None);

    let (committed, sent) = upload_pass(&mut registry, &mut chunker, &client, &mut remote, &disk);
    assert!(committed);
    assert!(sent.is_empty());
    assert_eq!(remote.journal[1], ("recipes/a.cook".to_string(), true, "".to_string()));
    assert_eq!(registry.rows()[1].jid, Some(2));
    assert!(registry.non_deleted(TENANT).is_empty());
    assert!(!scan(&mut registry, &disk));
}

#[test]
fn delete_propagation_inbound() {
    let (mut registry, mut chunker, _client, remote, mut disk) = setup();
    disk.insert("x".to_string(), b"old".to_vec());
    let records =
        vec![ResponseFileRecord { id: 9, path: "x".to_string(), deleted: true, chunk_ids: "".to_string() }];

    download_pass(&mut registry, &mut chunker, &remote, &mut disk, &records);

    assert!(!disk.contains_key("x"));
    assert_eq!(registry.len(), 1);
    assert!(registry.rows()[0].deleted);
    assert_eq!(registry.rows()[0].jid, Some(9));
    assert_eq!(registry.rows()[0].path, "x");
    assert_eq!(registry.latest_jid(TENANT), 9);
}

#[test]
fn poll_wakeup() {
    assert!(matches!(download_loop(DownloadEvent::PassDone(Ok(false)), false), DownloadAction::Poll));
    assert!(matches!(download_loop(DownloadEvent::PollDone(Ok(())), false), DownloadAction::RunPass));
}

#[test]
fn an_overwrite_downloads_only_the_new_chunks() {
    let (mut registry, mut chunker, _client, mut remote, mut disk) = setup();
    disk.insert("a.cook".to_string(), b"eggs\nham\n".to_vec());
    remote.chunks.insert("10da16ba98".to_string(), b"bacon\n".to_vec());
    let records = vec![ResponseFileRecord {
        id: 3,
        path: "a.cook".to_string(),
        deleted: false,
        chunk_ids: "e9c3c1c06f,10da16ba98".to_string(),
    }];
    download_pass(&mut registry, &mut chunker, &remote, &mut disk, &records);
    assert_eq!(disk["a.cook"], b"eggs\nbacon\n");
    assert_eq!(registry.rows()[0].jid, Some(3));
}
