use cooklang_sync_client::errors::SyncError;
use cooklang_sync_client::remote::{
    Body, CommitResultStatus, Method, PollResponse, Remote, ResponseFileRecord, POLL_SECONDS,
    REQUEST_TIMEOUT_SECS,
};

fn remote() -> Remote {
    Remote::with_client_id("https://example.org", "SECRET-REDACTED", "client-1".to_string())
}

fn auth() -> Vec<(String, String)> {
    vec![("authorization".to_string(), "Bearer SECRET-REDACTED".to_string())]
}

fn unknown(msg: &str) -> SyncError {
    SyncError::Unknown(msg.to_string())
}

#[test]
fn new_remote_has_a_fresh_uuid() {
    let a = Remote::new("https://example.org", "t");
    let b = Remote::new("https://example.org", "t");
    assert_eq!(a.uuid().len(), 36);
    assert_ne!(a.uuid(), b.uuid());
    assert_eq!(a.uuid().matches('-').count(), 4);
}

#[test]
fn upload_request() {
    let req = remote().upload("e9c3c1c06f", b"eggs\n".to_vec());
    assert_eq!(req.method, Method::Post);
    assert_eq!(req.url, "https://example.org/chunks/e9c3c1c06f");
    assert_eq!(req.headers, auth());
    assert!(matches!(req.body, Body::Raw(ref b) if b == b"eggs\n"));
}

#[test]
fn download_request() {
    let req = remote().download("e9c3c1c06f");
    assert_eq!(req.method, Method::Get);
    assert_eq!(req.url, "https://example.org/chunks/e9c3c1c06f");
    assert_eq!(req.headers, auth());
    assert!(matches!(req.body, Body::Empty));
}

#[test]
fn list_request() {
    let req = remote().list(42);
    assert_eq!(req.method, Method::Get);
    assert_eq!(req.url, "https://example.org/metadata/list?jid=42");
    assert_eq!(req.headers, auth());
    assert_eq!(remote().list(0).url, "https://example.org/metadata/list?jid=0");
    assert_eq!(remote().list(-3).url, "https://example.org/metadata/list?jid=-3");
}

#[test]
fn poll_request_outlasts_the_transport_by_ten_seconds() {
    assert_eq!(POLL_SECONDS, REQUEST_TIMEOUT_SECS + 10);
    let req = remote().poll();
    assert_eq!(req.method, Method::Get);
    assert_eq!(req.url, "https://example.org/metadata/poll?seconds=70&uuid=client-1");
    assert_eq!(req.headers, auth());
}

#[test]
fn commit_request() {
    let req = remote().commit("recipes/a.cook", false, "e9c3c1c06f,10da16ba98").unwrap();
    assert_eq!(req.method, Method::Post);
    assert_eq!(req.url, "https://example.org/metadata/commit?uuid=client-1");
    assert_eq!(req.headers, auth());
    match req.body {
        Body::Form(fields) => assert_eq!(
            fields,
            vec![
                ("deleted".to_string(), "false".to_string()),
                ("chunk_ids".to_string(), "e9c3c1c06f,10da16ba98".to_string()),
                ("path".to_string(), "recipes/a.cook".to_string()),
            ]
        ),
        other => panic!("{:?}", other),
    }
    let req = remote().commit_with("x", true, "");
    match req.body {
        Body::Form(fields) => assert_eq!(fields[0], ("deleted".to_string(), "true".to_string())),
        other => panic!("{:?}", other),
    }
}

#[test]
fn download_batch_request() {
    let req = remote().download_batch(vec!["aa", "bb"]);
    assert_eq!(req.method, Method::Post);
    assert_eq!(req.url, "https://example.org/chunks/download");
    match req.body {
        Body::Form(fields) => assert_eq!(
            fields,
            vec![
                ("chunk_ids[]".to_string(), "aa".to_string()),
                ("chunk_ids[]".to_string(), "bb".to_string()),
            ]
        ),
        other => panic!("{:?}", other),
    }
}

#[test]
fn upload_batch_request() {
    let chunks = vec![("aa".to_string(), b"one".to_vec())];
    let req = remote().upload_batch_with("B", chunks.clone());
    assert_eq!(req.method, Method::Post);
    assert_eq!(req.url, "https://example.org/chunks/upload");
    assert_eq!(req.headers[0], auth()[0]);
    assert_eq!(
        req.headers[1],
        ("content-type".to_string(), "multipart/form-data; boundary=B".to_string())
    );
    match req.body {
        Body::Multipart(bytes) => assert_eq!(
            bytes,
            b"--B\r\nContent-Disposition: form-data; name=\"aa\"\r\nContent-Type: application/octet-stream\r\n\r\none\r\n--B--\r\n".to_vec()
        ),
        other => panic!("{:?}", other),
    }

    let req = remote().upload_batch(chunks);
    let content_type = &req.headers[1].1;
    let prefix = "multipart/form-data; boundary=------------------------";
    assert!(content_type.starts_with(prefix));
    assert_eq!(content_type.len(), prefix.len() + 36);
    let boundary = &content_type["multipart/form-data; boundary=".len()..];
    match req.body {
        Body::Multipart(bytes) => {
            assert!(bytes.starts_with(format!("--{}\r\n", boundary).as_bytes()));
            assert!(bytes.ends_with(format!("one\r\n--{}--\r\n", boundary).as_bytes()));
        }
        other => panic!("{:?}", other),
    }
}

#[test]
fn statuses_are_read_alike_for_every_operation() {
    assert_eq!(Remote::upload_result(200), Ok(()));
    assert_eq!(Remote::upload_result(401), Err(SyncError::Unauthorized));
    assert_eq!(Remote::upload_result(500), Err(unknown("Upload chunk failed with status: 500")));
    assert_eq!(Remote::upload_result(204), Err(unknown("Upload chunk failed with status: 204")));
    assert_eq!(Remote::upload_batch_result(200), Ok(()));
    assert_eq!(Remote::upload_batch_result(401), Err(SyncError::Unauthorized));
    assert_eq!(Remote::upload_batch_result(413), Err(unknown("Upload batch failed with status: 413")));
}

#[test]
fn download_result_cases() {
    assert_eq!(Remote::download_result(200, Some(vec![1, 2])), Ok(vec![1, 2]));
    assert_eq!(Remote::download_result(200, None), Err(SyncError::BodyExtractError));
    assert_eq!(Remote::download_result(401, Some(vec![1])), Err(SyncError::Unauthorized));
    assert_eq!(
        Remote::download_result(404, None),
        Err(unknown("Download chunk failed with status: 404"))
    );
}

#[test]
fn list_result_cases() {
    let records = vec![ResponseFileRecord {
        id: 7,
        path: "menus/mon.menu".to_string(),
        deleted: false,
        chunk_ids: "aa,bb".to_string(),
    }];
    let got = Remote::list_result(200, Some(records)).unwrap();
    assert_eq!(got.len(), 1);
    assert_eq!(got[0].id, 7);
    assert_eq!(got[0].chunk_ids, "aa,bb");
    assert_eq!(Remote::list_result(200, None).unwrap_err(), SyncError::BodyExtractError);
    assert_eq!(Remote::list_result(401, None).unwrap_err(), SyncError::Unauthorized);
    assert_eq!(
        Remote::list_result(502, None).unwrap_err(),
        unknown("List metadata failed with status: 502")
    );
}

#[test]
fn commit_result_cases() {
    assert!(matches!(
        Remote::commit_result(200, Some(CommitResultStatus::Success(5))),
        Ok(CommitResultStatus::Success(5))
    ));
    assert!(matches!(
        Remote::commit_result(200, Some(CommitResultStatus::NeedChunks("aa".to_string()))),
        Ok(CommitResultStatus::NeedChunks(ref s)) if s == "aa"
    ));
    assert_eq!(Remote::commit_result(200, None).unwrap_err(), SyncError::BodyExtractError);
    assert_eq!(
        Remote::commit_result(401, Some(CommitResultStatus::Success(5))).unwrap_err(),
        SyncError::Unauthorized
    );
    assert_eq!(
        Remote::commit_result(400, None).unwrap_err(),
        unknown("Commit metadata failed with status: 400")
    );
}

#[test]
fn poll_result_ignores_timeouts() {
    assert_eq!(Remote::poll_result(PollResponse::Status(200)), Ok(()));
    assert_eq!(Remote::poll_result(PollResponse::TimedOut), Ok(()));
    assert_eq!(Remote::poll_result(PollResponse::Status(401)), Err(SyncError::Unauthorized));
    assert_eq!(
        Remote::poll_result(PollResponse::Status(503)),
        Err(unknown("Poll metadata failed with status: 503"))
    );
    assert_eq!(
        Remote::poll_result(PollResponse::Failed("connection reset".to_string())),
        Err(SyncError::TransportError("connection reset".to_string()))
    );
}

#[test]
fn download_batch_result_cases() {
    assert!(Remote::download_batch_result(200, Some("multipart/mixed; boundary=b")).is_ok());
    assert_eq!(
        Remote::download_batch_result(200, None).err(),
        Some(SyncError::BatchDownloadError("No content-type header".to_string()))
    );
    assert_eq!(
        Remote::download_batch_result(200, Some("text/plain")).err(),
        Some(SyncError::BatchDownloadError("No boundary in content-type header".to_string()))
    );
    assert_eq!(
        Remote::download_batch_result(401, Some("multipart/mixed; boundary=b")).err(),
        Some(SyncError::Unauthorized)
    );
    assert_eq!(
        Remote::download_batch_result(500, None).err(),
        Some(unknown("Download batch failed with status: 500"))
    );
}

#[test]
fn commit_sends_a_plain_path_as_it_is() {
    for path in ["a.cook", "recipes/sub dir/a.cook", "/abs/a.md", ".bookmarks"] {
        let req = remote().commit(path, true, "").unwrap();
        match req.body {
            Body::Form(fields) => assert_eq!(fields[2], ("path".to_string(), path.to_string())),
            other => panic!("{:?}", other),
        }
    }
}
