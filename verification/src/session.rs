//! A sync session as a whole: how it is set up, and how it ends.

use vstd::prelude::*;
use vstd::string::*;
use crate::cache::InMemoryCache;
use crate::chunker::Chunker;
use crate::errors::{message_of, SyncError};
use crate::formats::FormatRules;
use crate::models::SyncStatus;

verus! {

/// Capacity of the channel from the indexer to the syncer.
pub const CHANNEL_SIZE: usize = 100;

/// Capacity of the channel from the watcher to the indexer.
pub const WATCHER_CHANNEL_SIZE: usize = 1000;

/// Seconds the watcher collects events before it reports them.
pub const DEBOUNCE_SEC: u64 = 2;

/// The number of chunks the cache of a session is made for.
pub const INMEMORY_CACHE_MAX_REC: usize = 100000;

/// The total weight of the chunks the cache of a session may hold.
pub const INMEMORY_CACHE_MAX_MEM: u64 = 100000000000;

/// The chunker of a session over the storage root `storage_dir`: its cache
/// is empty, and it classifies paths by the default rules.
pub fn new_chunker(storage_dir: &str) -> (c: Chunker)
    ensures
        c@ =~= Map::<Seq<char>, Seq<u8>>::empty(),
        c.base() == storage_dir@,
        forall|p: Seq<char>| c.rules().format_of(p) == FormatRules::default_format_of(p),
{
    let cache = InMemoryCache::new(INMEMORY_CACHE_MAX_REC, INMEMORY_CACHE_MAX_MEM);
    Chunker::new(cache, storage_dir.to_string())
}

/// How a session ends for its listener: whether it ended well, and the
/// status to report before that. A session that the remote refused as
/// unauthorized reports the status `Error` with the message of the error;
/// any other end changes no status.
pub fn completion(result: &Result<(), SyncError>) -> (r: (bool, Option<SyncStatus>))
    ensures
        r.0 == (result is Ok),
        match r.1 {
            Some(status) => result is Err && result->Err_0@ is Unauthorized && status is Error
                && status->message@ == message_of(result->Err_0@),
            None => !(result is Err && result->Err_0@ is Unauthorized),
        },
{
    match result {
        Ok(_) => (true, None),
        Err(e) => {
            if e.is_unauthorized() {
                (false, Some(SyncStatus::Error { message: e.message() }))
            } else {
                (false, None)
            }
        },
    }
}

} // verus!
