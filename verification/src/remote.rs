//! The client side of the remote protocol, without the transport.
//!
//! For each operation of the remote there is a function that builds the
//! request to send and one that reads the answer. Sending is left to the
//! caller, so that nothing here waits or fails on the network.

use vstd::prelude::*;
use vstd::string::*;
use crate::decimal::{decimal_of, push_decimal, signed_decimal_of, i32_to_string};
use crate::errors::{SyncError, SyncErrorView};
use crate::multipart::{
    batch_view, boundary_parameter, delimiter, encode_batch, no_boundary_message,
    no_content_type_message, second_piece, upload_body, BatchDecoder,
};
use crate::paths::{plain_slash_path, to_slash};

verus! {

/// Seconds after which the transport gives up on a request.
pub const REQUEST_TIMEOUT_SECS: u64 = 60;

/// Seconds the remote is asked to hold a poll open: longer than the
/// transport waits, so that the transport's timeout ends a quiet poll.
pub const POLL_SECONDS: u64 = 70;

/// One revision as the remote lists it; `id` is its jid.
#[derive(Debug)]
pub struct ResponseFileRecord {
    pub id: i32,
    pub path: String,
    pub deleted: bool,
    pub chunk_ids: String,
}

/// The mathematical value of a `ResponseFileRecord`.
pub struct ResponseFileRecordView {
    pub id: int,
    pub path: Seq<char>,
    pub deleted: bool,
    pub chunk_ids: Seq<char>,
}

impl View for ResponseFileRecord {
    type V = ResponseFileRecordView;

    open spec fn view(&self) -> ResponseFileRecordView {
        ResponseFileRecordView {
            id: self.id as int,
            path: self.path@,
            deleted: self.deleted,
            chunk_ids: self.chunk_ids@,
        }
    }
}

/// The answer of the remote to a commit.
#[derive(Debug)]
pub enum CommitResultStatus {
    /// The revision was accepted under this jid.
    Success(i32),
    /// The remote lacks these chunks, listed with commas between them.
    NeedChunks(String),
}

/// The mathematical value of a `CommitResultStatus`.
pub enum CommitResultView {
    Success(int),
    NeedChunks(Seq<char>),
}

impl View for CommitResultStatus {
    type V = CommitResultView;

    open spec fn view(&self) -> CommitResultView {
        match self {
            CommitResultStatus::Success(jid) => CommitResultView::Success(*jid as int),
            CommitResultStatus::NeedChunks(ids) => CommitResultView::NeedChunks(ids@),
        }
    }
}

/// The method of a request.
#[derive(Debug, Clone, Copy, PartialEq, Eq, Structural)]
pub enum Method {
    Get,
    Post,
}

/// The body of a request.
#[derive(Debug)]
pub enum Body {
    /// No body.
    Empty,
    /// These bytes, as they are.
    Raw(Vec<u8>),
    /// These fields, form-encoded by the transport.
    Form(Vec<(String, String)>),
    /// These bytes, a multipart body whose boundary the content type names.
    Multipart(Vec<u8>),
}

/// A request to send to the remote.
#[derive(Debug)]
pub struct Request {
    pub method: Method,
    pub url: String,
    pub headers: Vec<(String, String)>,
    pub body: Body,
}

/// The views of a vector of pairs of strings.
pub open spec fn pair_views(v: Seq<(String, String)>) -> Seq<(Seq<char>, Seq<char>)> {
    v.map_values(|p: (String, String)| (p.0@, p.1@))
}

/// The mathematical value of a `Body`.
pub enum BodyView {
    Empty,
    Raw(Seq<u8>),
    Form(Seq<(Seq<char>, Seq<char>)>),
    Multipart(Seq<u8>),
}

impl View for Body {
    type V = BodyView;

    open spec fn view(&self) -> BodyView {
        match self {
            Body::Empty => BodyView::Empty,
            Body::Raw(b) => BodyView::Raw(b@),
            Body::Form(f) => BodyView::Form(pair_views(f@)),
            Body::Multipart(b) => BodyView::Multipart(b@),
        }
    }
}

/// The mathematical value of a `Request`.
pub struct RequestView {
    pub method: Method,
    pub url: Seq<char>,
    pub headers: Seq<(Seq<char>, Seq<char>)>,
    pub body: BodyView,
}

impl View for Request {
    type V = RequestView;

    open spec fn view(&self) -> RequestView {
        RequestView {
            method: self.method,
            url: self.url@,
            headers: pair_views(self.headers@),
            body: self.body@,
        }
    }
}

/// The header that authenticates every request: the bearer token.
pub open spec fn auth_header(token: Seq<char>) -> (Seq<char>, Seq<char>) {
    ("authorization"@, "Bearer "@ + token)
}

/// What the answer to a request means, by its status alone: nothing is
/// wrong with 200; 401 is `Unauthorized`; any other status is `Unknown`,
/// with a message that names the operation `what` and the status.
pub open spec fn status_error(what: Seq<char>, status: int) -> Option<SyncErrorView> {
    if status == 200 {
        None
    } else if status == 401 {
        Some(SyncErrorView::Unauthorized)
    } else {
        Some(SyncErrorView::Unknown(what + " failed with status: "@ + decimal_of(status as nat)))
    }
}

/// What the answer to a request means, by its status alone.
fn check_status(what: &str, status: u16) -> (r: Result<(), SyncError>)
    ensures
        match r {
            Ok(_) => status_error(what@, status as int) is None,
            Err(e) => status_error(what@, status as int) == Some(e@),
        },
{
    if status == 200 {
        Ok(())
    } else if status == 401 {
        Err(SyncError::Unauthorized)
    } else {
        let mut message = what.to_string();
        message.append(" failed with status: ");
        push_decimal(&mut message, status as u64);
        Err(SyncError::Unknown(message))
    }
}

/// `uuid::Uuid::new_v4`, written as a string: a fresh random UUID in its
/// hyphenated form of 36 characters.
#[verifier::external_body]
fn new_uuid() -> (id: String)
    ensures
        id@.len() == 36,
{
    uuid::Uuid::new_v4().into()
}

/// The client of one sync session: where the remote is, the token that
/// authenticates the session, and the id by which the remote tells this
/// client's own commits from those of others.
pub struct Remote {
    api_endpoint: String,
    token: String,
    uuid: String,
}

/// What the remote answered to a poll, or that it did not.
#[derive(Debug)]
pub enum PollResponse {
    /// The remote answered with this status.
    Status(u16),
    /// The transport gave up waiting.
    TimedOut,
    /// The transport failed otherwise, for the reason given.
    Failed(String),
}

impl Remote {
    /// The address of the remote.
    pub closed spec fn endpoint(&self) -> Seq<char> {
        self.api_endpoint@
    }

    /// The bearer token.
    pub closed spec fn token(&self) -> Seq<char> {
        self.token@
    }

    /// The id of this client.
    pub closed spec fn client_id(&self) -> Seq<char> {
        self.uuid@
    }

    /// A client for the remote at `api_endpoint`, with a fresh client id.
    pub fn new(api_endpoint: &str, token: &str) -> (r: Remote)
        ensures
            r.endpoint() == api_endpoint@,
            r.token() == token@,
            r.client_id().len() == 36,
    {
        Remote::with_client_id(api_endpoint, token, new_uuid())
    }

    /// A client for the remote at `api_endpoint`, with the given client id.
    pub fn with_client_id(api_endpoint: &str, token: &str, uuid: String) -> (r: Remote)
        ensures
            r.endpoint() == api_endpoint@,
            r.token() == token@,
            r.client_id() == uuid@,
    {
        Remote { api_endpoint: api_endpoint.to_string(), token: token.to_string(), uuid }
    }

    /// The id of this client.
    pub fn uuid(&self) -> (id: &str)
        ensures
            id@ == self.client_id(),
    {
        self.uuid.as_str()
    }

    /// The headers of every request: the bearer token.
    pub fn auth_headers(&self) -> (h: Vec<(String, String)>)
        ensures
            pair_views(h@) == seq![auth_header(self.token())],
    {
        let mut value = "Bearer ".to_string();
        value.append(self.token.as_str());
        let mut h: Vec<(String, String)> = Vec::new();
        h.push(("authorization".to_string(), value));
        proof {
            assert(pair_views(h@) =~= seq![auth_header(self.token())]);
        }
        h
    }

    /// The address of `path` on the remote.
    fn url(&self, path: &str) -> (u: String)
        ensures
            u@ == self.endpoint() + path@,
    {
        let mut u = self.api_endpoint.clone();
        u.append(path);
        u
    }

    /// The request that uploads one chunk: its bytes, posted to the chunk's
    /// own address.
    pub fn upload(&self, chunk: &str, content: Vec<u8>) -> (req: Request)
        ensures
            req@ == (RequestView {
                method: Method::Post,
                url: self.endpoint() + "/chunks/"@ + chunk@,
                headers: seq![auth_header(self.token())],
                body: BodyView::Raw(content@),
            }),
    {
        let mut url = self.url("/chunks/");
        url.append(chunk);
        Request { method: Method::Post, url, headers: self.auth_headers(), body: Body::Raw(content) }
    }

    /// The answer to an upload of one chunk.
    pub fn upload_result(status: u16) -> (r: Result<(), SyncError>)
        ensures
            match r {
                Ok(_) => status_error("Upload chunk"@, status as int) is None,
                Err(e) => status_error("Upload chunk"@, status as int) == Some(e@),
            },
    {
        check_status("Upload chunk", status)
    }

    /// The request that downloads one chunk.
    pub fn download(&self, chunk: &str) -> (req: Request)
        ensures
            req@ == (RequestView {
                method: Method::Get,
                url: self.endpoint() + "/chunks/"@ + chunk@,
                headers: seq![auth_header(self.token())],
                body: BodyView::Empty,
            }),
    {
        let mut url = self.url("/chunks/");
        url.append(chunk);
        Request { method: Method::Get, url, headers: self.auth_headers(), body: Body::Empty }
    }

    /// The answer to a download of one chunk: its bytes. `body` is `None`
    /// where the body could not be read.
    pub fn download_result(status: u16, body: Option<Vec<u8>>) -> (r: Result<Vec<u8>, SyncError>)
        ensures
            match r {
                Ok(bytes) => status_error("Download chunk"@, status as int) is None && body
                    == Some(bytes),
                Err(e) => match status_error("Download chunk"@, status as int) {
                    Some(err) => e@ == err,
                    None => body is None && e@ == SyncErrorView::BodyExtractError,
                },
            },
    {
        match check_status("Download chunk", status) {
            Ok(_) => match body {
                Some(bytes) => Ok(bytes),
                None => Err(SyncError::BodyExtractError),
            },
            Err(e) => Err(e),
        }
    }

    /// The request that lists the revisions after the jid `local_jid`.
    pub fn list(&self, local_jid: i32) -> (req: Request)
        ensures
            req@ == (RequestView {
                method: Method::Get,
                url: self.endpoint() + "/metadata/list?jid="@ + signed_decimal_of(
                    local_jid as int,
                ),
                headers: seq![auth_header(self.token())],
                body: BodyView::Empty,
            }),
    {
        let mut url = self.url("/metadata/list?jid=");
        url.append(i32_to_string(local_jid).as_str());
        Request { method: Method::Get, url, headers: self.auth_headers(), body: Body::Empty }
    }

    /// The answer to a list: the revisions. `records` is `None` where the
    /// body could not be read as a list of revisions.
    pub fn list_result(status: u16, records: Option<Vec<ResponseFileRecord>>) -> (r: Result<
        Vec<ResponseFileRecord>,
        SyncError,
    >)
        ensures
            match r {
                Ok(list) => status_error("List metadata"@, status as int) is None && records
                    == Some(list),
                Err(e) => match status_error("List metadata"@, status as int) {
                    Some(err) => e@ == err,
                    None => records is None && e@ == SyncErrorView::BodyExtractError,
                },
            },
    {
        match check_status("List metadata", status) {
            Ok(_) => match records {
                Some(list) => Ok(list),
                None => Err(SyncError::BodyExtractError),
            },
            Err(e) => Err(e),
        }
    }

    /// The request that waits for news: a poll that the remote holds open
    /// until another client commits, or until `POLL_SECONDS` have passed.
    pub fn poll(&self) -> (req: Request)
        ensures
            req@ == (RequestView {
                method: Method::Get,
                url: self.endpoint() + "/metadata/poll?seconds="@ + decimal_of(
                    POLL_SECONDS as nat,
                ) + "&uuid="@ + self.client_id(),
                headers: seq![auth_header(self.token())],
                body: BodyView::Empty,
            }),
    {
        let mut url = self.url("/metadata/poll?seconds=");
        push_decimal(&mut url, POLL_SECONDS);
        url.append("&uuid=");
        url.append(self.uuid.as_str());
        Request { method: Method::Get, url, headers: self.auth_headers(), body: Body::Empty }
    }

    /// The answer to a poll. A poll that timed out is no failure: it means
    /// that there is no news.
    pub fn poll_result(response: PollResponse) -> (r: Result<(), SyncError>)
        ensures
            match response {
                PollResponse::Status(status) => match r {
                    Ok(_) => status_error("Poll metadata"@, status as int) is None,
                    Err(e) => status_error("Poll metadata"@, status as int) == Some(e@),
                },
                PollResponse::TimedOut => r is Ok,
                PollResponse::Failed(reason) => r is Err && r->Err_0@
                    == SyncErrorView::TransportError(reason@),
            },
    {
        match response {
            PollResponse::Status(status) => check_status("Poll metadata", status),
            PollResponse::TimedOut => Ok(()),
            PollResponse::Failed(reason) => Err(SyncError::TransportError(reason)),
        }
    }
}

/// The hyphens that every boundary of a batch upload begins with.
pub open spec fn boundary_prefix() -> Seq<char> {
    "------------------------"@
}

/// `true` or `false`, as a form field.
pub open spec fn flag(b: bool) -> Seq<char> {
    if b {
        "true"@
    } else {
        "false"@
    }
}

/// The fields of a commit.
pub open spec fn commit_fields(
    slash_path: Seq<char>,
    deleted: bool,
    chunk_ids: Seq<char>,
) -> Seq<(Seq<char>, Seq<char>)> {
    seq![("deleted"@, flag(deleted)), ("chunk_ids"@, chunk_ids), ("path"@, slash_path)]
}

/// The fields of a batch download: one `chunk_ids[]` for each id.
pub open spec fn download_fields(ids: Seq<Seq<char>>) -> Seq<(Seq<char>, Seq<char>)> {
    ids.map_values(|id: Seq<char>| ("chunk_ids[]"@, id))
}

impl Remote {
    /// The request that uploads `chunks` in one multipart body with the
    /// given boundary: one part for each chunk, named after its id.
    pub fn upload_batch_with(&self, boundary: &str, chunks: Vec<(String, Vec<u8>)>) -> (req:
        Request)
        ensures
            req@ == (RequestView {
                method: Method::Post,
                url: self.endpoint() + "/chunks/upload"@,
                headers: seq![
                    auth_header(self.token()),
                    ("content-type"@, "multipart/form-data; boundary="@ + boundary@),
                ],
                body: BodyView::Multipart(upload_body(boundary@, batch_view(chunks@))),
            }),
    {
        let mut headers = self.auth_headers();
        let mut content_type = "multipart/form-data; boundary=".to_string();
        content_type.append(boundary);
        let ghost first = headers@;
        let field = ("content-type".to_string(), content_type);
        headers.push(field);
        let body = encode_batch(boundary, &chunks);
        proof {
            assert(pair_views(first.push(field)) =~= pair_views(first).push((field.0@, field.1@)));
            assert(pair_views(headers@) =~= seq![
                auth_header(self.token()),
                ("content-type"@, "multipart/form-data; boundary="@ + boundary@),
            ]);
        }
        Request {
            method: Method::Post,
            url: self.url("/chunks/upload"),
            headers,
            body: Body::Multipart(body),
        }
    }

    /// The request that uploads `chunks` in one multipart body, under a
    /// fresh boundary: 24 hyphens and a random UUID.
    pub fn upload_batch(&self, chunks: Vec<(String, Vec<u8>)>) -> (req: Request)
        ensures
            exists|id: Seq<char>|
                id.len() == 36 && #[trigger] req@.headers == seq![
                    auth_header(self.token()),
                    ("content-type"@, "multipart/form-data; boundary="@ + boundary_prefix() + id),
                ] && req@.body == BodyView::Multipart(
                    upload_body(boundary_prefix() + id, batch_view(chunks@)),
                ),
            req@.method == Method::Post,
            req@.url == self.endpoint() + "/chunks/upload"@,
    {
        let id = new_uuid();
        let mut boundary = "------------------------".to_string();
        boundary.append(id.as_str());
        let req = self.upload_batch_with(boundary.as_str(), chunks);
        proof {
            assert(req@.headers == seq![
                auth_header(self.token()),
                ("content-type"@, "multipart/form-data; boundary="@ + boundary_prefix() + id@),
            ]) by {
                assert("multipart/form-data; boundary="@ + (boundary_prefix() + id@)
                    =~= "multipart/form-data; boundary="@ + boundary_prefix() + id@);
            }
        }
        req
    }

    /// The answer to a batch upload.
    pub fn upload_batch_result(status: u16) -> (r: Result<(), SyncError>)
        ensures
            match r {
                Ok(_) => status_error("Upload batch"@, status as int) is None,
                Err(e) => status_error("Upload batch"@, status as int) == Some(e@),
            },
    {
        check_status("Upload batch", status)
    }

    /// The request that commits a revision of the file at the slash path
    /// `slash_path`: its chunks in order, or that it is deleted. The
    /// request carries the id of this client, so that the remote does not
    /// report the commit back to it.
    pub fn commit_with(&self, slash_path: &str, deleted: bool, chunk_ids: &str) -> (req: Request)
        ensures
            req@ == (RequestView {
                method: Method::Post,
                url: self.endpoint() + "/metadata/commit?uuid="@ + self.client_id(),
                headers: seq![auth_header(self.token())],
                body: BodyView::Form(commit_fields(slash_path@, deleted, chunk_ids@)),
            }),
    {
        let mut url = self.url("/metadata/commit?uuid=");
        url.append(self.uuid.as_str());
        let mut fields: Vec<(String, String)> = Vec::new();
        let deleted_text = if deleted {
            "true"
        } else {
            "false"
        };
        fields.push(("deleted".to_string(), deleted_text.to_string()));
        fields.push(("chunk_ids".to_string(), chunk_ids.to_string()));
        fields.push(("path".to_string(), slash_path.to_string()));
        proof {
            assert(pair_views(fields@) =~= commit_fields(slash_path@, deleted, chunk_ids@));
        }
        Request { method: Method::Post, url, headers: self.auth_headers(), body: Body::Form(fields) }
    }

    /// The request that commits a revision of the file at `path`, a path of
    /// the host: the path goes out in its slash form, whatever the host's
    /// separator is. Every path that a string spells has a slash form, so
    /// the request is always built; and a path that is in plain slash form
    /// already goes out as it is.
    pub fn commit(&self, path: &str, deleted: bool, chunk_ids: &str) -> (r: Result<
        Request,
        SyncError,
    >)
        ensures
            r is Ok,
            exists|slash_path: Seq<char>| #[trigger]
                r->Ok_0@.body == BodyView::Form(commit_fields(slash_path, deleted, chunk_ids@)),
            plain_slash_path(path@) ==> r->Ok_0@.body == BodyView::Form(
                commit_fields(path@, deleted, chunk_ids@),
            ),
            r->Ok_0@.method == Method::Post,
            r->Ok_0@.url == self.endpoint() + "/metadata/commit?uuid="@ + self.client_id(),
            r->Ok_0@.headers == seq![auth_header(self.token())],
    {
        match to_slash(path) {
            Ok(slash_path) => {
                let req = self.commit_with(slash_path.as_str(), deleted, chunk_ids);
                proof {
                    assert(req@.body == BodyView::Form(
                        commit_fields(slash_path@, deleted, chunk_ids@),
                    ));
                }
                Ok(req)
            },
            Err(e) => Err(e),
        }
    }

    /// The answer to a commit. `parsed` is `None` where the body could not
    /// be read as an answer to a commit.
    pub fn commit_result(status: u16, parsed: Option<CommitResultStatus>) -> (r: Result<
        CommitResultStatus,
        SyncError,
    >)
        ensures
            match r {
                Ok(answer) => status_error("Commit metadata"@, status as int) is None && parsed
                    == Some(answer),
                Err(e) => match status_error("Commit metadata"@, status as int) {
                    Some(err) => e@ == err,
                    None => parsed is None && e@ == SyncErrorView::BodyExtractError,
                },
            },
    {
        match check_status("Commit metadata", status) {
            Ok(_) => match parsed {
                Some(answer) => Ok(answer),
                None => Err(SyncError::BodyExtractError),
            },
            Err(e) => Err(e),
        }
    }

    /// The request that downloads the chunks `chunk_ids` in one multipart
    /// answer.
    pub fn download_batch(&self, chunk_ids: Vec<&str>) -> (req: Request)
        ensures
            req@ == (RequestView {
                method: Method::Post,
                url: self.endpoint() + "/chunks/download"@,
                headers: seq![auth_header(self.token())],
                body: BodyView::Form(
                    download_fields(chunk_ids@.map_values(|s: &str| s@)),
                ),
            }),
    {
        let mut fields: Vec<(String, String)> = Vec::new();
        let mut i: usize = 0;
        let ghost ids = chunk_ids@.map_values(|s: &str| s@);
        while i < chunk_ids.len()
            invariant
                i <= chunk_ids@.len(),
                ids == chunk_ids@.map_values(|s: &str| s@),
                pair_views(fields@) == download_fields(ids.take(i as int)),
            decreases chunk_ids@.len() - i,
        {
            let field = ("chunk_ids[]".to_string(), chunk_ids[i].to_string());
            proof {
                assert(ids.take(i + 1) =~= ids.take(i as int).push(chunk_ids@[i as int]@));
                assert(pair_views(fields@.push(field)) =~= pair_views(fields@).push(
                    (field.0@, field.1@),
                ));
                assert(download_fields(ids.take(i as int).push(chunk_ids@[i as int]@))
                    =~= download_fields(ids.take(i as int)).push(
                    ("chunk_ids[]"@, chunk_ids@[i as int]@),
                ));
            }
            fields.push(field);
            i += 1;
        }
        proof {
            assert(ids.take(chunk_ids@.len() as int) =~= ids);
        }
        Request {
            method: Method::Post,
            url: self.url("/chunks/download"),
            headers: self.auth_headers(),
            body: Body::Form(fields),
        }
    }

    /// The answer to a batch download, by its status and content type: the
    /// decoder to feed the body to.
    pub fn download_batch_result(status: u16, content_type: Option<&str>) -> (r: Result<
        BatchDecoder,
        SyncError,
    >)
        ensures
            match r {
                Ok(d) => {
                    &&& status_error("Download batch"@, status as int) is None
                    &&& content_type is Some
                    &&& second_piece(content_type->0@, boundary_parameter()) is Some
                    &&& d.boundary() == delimiter(
                        second_piece(content_type->0@, boundary_parameter())->0,
                    )
                    &&& d.buffered().len() == 0
                },
                Err(e) => match status_error("Download batch"@, status as int) {
                    Some(err) => e@ == err,
                    None => {
                        &&& content_type is None ==> e@ == SyncErrorView::BatchDownloadError(
                            no_content_type_message(),
                        )
                        &&& content_type is Some ==> second_piece(
                            content_type->0@,
                            boundary_parameter(),
                        ) is None && e@ == SyncErrorView::BatchDownloadError(
                            no_boundary_message(),
                        )
                    },
                },
            },
    {
        match check_status("Download batch", status) {
            Ok(_) => BatchDecoder::new(content_type),
            Err(e) => Err(e),
        }
    }
}

} // verus!
