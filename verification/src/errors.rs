//! The error taxonomy of the synchronization engine.

use vstd::prelude::*;
use vstd::string::*;

verus! {

/// Everything that can go wrong during a sync session.
#[derive(Debug, PartialEq, Eq)]
pub enum SyncError {
    /// A local filesystem failure on `path`; `source` describes the cause.
    IoError { path: String, source: String },
    /// The filesystem watcher failed.
    NotifyError(String),
    /// The registry refused an operation.
    DBQueryError(String),
    /// The HTTP transport failed before any status was received.
    TransportError(String),
    /// The registry could not be opened.
    ConnectionInitError(String),
    /// A file on disk does not lie under the storage root.
    StripPrefix,
    /// A file is too large for its size to be stored.
    Convert,
    /// The remote answered 401.
    Unauthorized,
    /// The remote answered with a body that could not be read.
    BodyExtractError,
    /// A chunk that was expected in the cache is missing.
    GetFromCacheError,
    /// The chunker was asked to process a path of no listed format.
    UnlistedFileFormat(String),
    /// Any other failure, with a message.
    Unknown(String),
    /// The remote answered a batch download with a malformed multipart body.
    BatchDownloadError(String),
}

/// The mathematical value of a `SyncError`: strings by their characters.
pub enum SyncErrorView {
    IoError { path: Seq<char>, source: Seq<char> },
    NotifyError(Seq<char>),
    DBQueryError(Seq<char>),
    TransportError(Seq<char>),
    ConnectionInitError(Seq<char>),
    StripPrefix,
    Convert,
    Unauthorized,
    BodyExtractError,
    GetFromCacheError,
    UnlistedFileFormat(Seq<char>),
    Unknown(Seq<char>),
    BatchDownloadError(Seq<char>),
}

impl View for SyncError {
    type V = SyncErrorView;

    open spec fn view(&self) -> SyncErrorView {
        match self {
            SyncError::IoError { path, source } => SyncErrorView::IoError {
                path: path@,
                source: source@,
            },
            SyncError::NotifyError(m) => SyncErrorView::NotifyError(m@),
            SyncError::DBQueryError(m) => SyncErrorView::DBQueryError(m@),
            SyncError::TransportError(m) => SyncErrorView::TransportError(m@),
            SyncError::ConnectionInitError(m) => SyncErrorView::ConnectionInitError(m@),
            SyncError::StripPrefix => SyncErrorView::StripPrefix,
            SyncError::Convert => SyncErrorView::Convert,
            SyncError::Unauthorized => SyncErrorView::Unauthorized,
            SyncError::BodyExtractError => SyncErrorView::BodyExtractError,
            SyncError::GetFromCacheError => SyncErrorView::GetFromCacheError,
            SyncError::UnlistedFileFormat(p) => SyncErrorView::UnlistedFileFormat(p@),
            SyncError::Unknown(m) => SyncErrorView::Unknown(m@),
            SyncError::BatchDownloadError(m) => SyncErrorView::BatchDownloadError(m@),
        }
    }
}

/// The text a `SyncError` is reported with.
pub open spec fn message_of(e: SyncErrorView) -> Seq<char> {
    match e {
        SyncErrorView::IoError { path, source } => "IO error in file "@ + path + ": "@ + source,
        SyncErrorView::NotifyError(m) => "Notify error "@ + m,
        SyncErrorView::DBQueryError(m) => "Database query error "@ + m,
        SyncErrorView::TransportError(m) => "Reqwest error "@ + m,
        SyncErrorView::ConnectionInitError(m) => "Connection init error "@ + m,
        SyncErrorView::StripPrefix => "Strip prefix error prefix not found"@,
        SyncErrorView::Convert => "Conversion error out of range integral type conversion attempted"@,
        SyncErrorView::Unauthorized => "Unauthorized token"@,
        SyncErrorView::BodyExtractError => "Can't parse the response"@,
        SyncErrorView::GetFromCacheError => "Can't find in cache"@,
        SyncErrorView::UnlistedFileFormat(p) => "Unlisted file format "@ + p,
        SyncErrorView::Unknown(m) => "Unknown error "@ + m,
        SyncErrorView::BatchDownloadError(m) => "Batch download error "@ + m,
    }
}

/// A literal followed by a string.
fn prefixed(prefix: &str, rest: &str) -> (s: String)
    ensures
        s@ == prefix@ + rest@,
{
    let mut s = prefix.to_string();
    s.append(rest);
    s
}

impl SyncError {
    /// An `IoError` on `path` caused by `error`.
    pub fn from_io_error(path: &str, error: &str) -> (e: SyncError)
        ensures
            e@ == (SyncErrorView::IoError { path: path@, source: error@ }),
    {
        SyncError::IoError { path: path.to_string(), source: error.to_string() }
    }

    /// The text this error is reported with.
    pub fn message(&self) -> (s: String)
        ensures
            s@ == message_of(self@),
    {
        match self {
            SyncError::IoError { path, source } => {
                let mut s = prefixed("IO error in file ", path.as_str());
                s.append(": ");
                s.append(source.as_str());
                s
            },
            SyncError::NotifyError(m) => prefixed("Notify error ", m.as_str()),
            SyncError::DBQueryError(m) => prefixed("Database query error ", m.as_str()),
            SyncError::TransportError(m) => prefixed("Reqwest error ", m.as_str()),
            SyncError::ConnectionInitError(m) => prefixed("Connection init error ", m.as_str()),
            SyncError::StripPrefix => "Strip prefix error prefix not found".to_string(),
            SyncError::Convert => "Conversion error out of range integral type conversion attempted".to_string(),
            SyncError::Unauthorized => "Unauthorized token".to_string(),
            SyncError::BodyExtractError => "Can't parse the response".to_string(),
            SyncError::GetFromCacheError => "Can't find in cache".to_string(),
            SyncError::UnlistedFileFormat(p) => prefixed("Unlisted file format ", p.as_str()),
            SyncError::Unknown(m) => prefixed("Unknown error ", m.as_str()),
            SyncError::BatchDownloadError(m) => prefixed("Batch download error ", m.as_str()),
        }
    }

    /// Whether this is the one error that ends the whole session.
    pub fn is_unauthorized(&self) -> (b: bool)
        ensures
            b == (self@ == SyncErrorView::Unauthorized),
    {
        match self {
            SyncError::Unauthorized => true,
            _ => false,
        }
    }
}

} // verus!
