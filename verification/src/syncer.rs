//! The syncer: what one upload pass and one download pass decide, and how
//! the two loops go from one pass to the next.
//!
//! Nothing here reads a file, asks the remote or sleeps. A pass is a
//! sequence of steps; each step takes what the outside world answered to
//! the step before and says what to do next.

use vstd::prelude::*;
use vstd::string::*;
use crate::cache::chunk_bytes;
use crate::chunker::{
    all_present, assembled, chunks_for, hash_size, holds_only, ids_of, str_views, Chunker,
    FileWrite,
};
use crate::paths::joined_path;
use crate::errors::{SyncError, SyncErrorView};
use crate::models::{CreateForm, DeleteForm, FileRecord, FormView, SyncStatus, Timestamp};
use crate::multipart::batch_view;
use crate::registry::{
    appended, attach_refused, attached, conflict_message, create_views, delete_views,
    full_message, next_id, position_of, Registry,
};
use crate::remote::{CommitResultStatus, CommitResultView, ResponseFileRecord};
use crate::text::{chars_eq, join_chars, join_with, split_chars, split_on, to_chars, views};

verus! {

/// The bytes a batch of an upload may hold before the next one is opened.
pub const MAX_UPLOAD_SIZE: usize = 3000000;

/// Seconds the upload loop waits for the indexer before its first pass.
pub const UPLOAD_START_DELAY_SEC: u64 = 5;

/// Seconds the upload loop rests when there is nothing to upload.
pub const INTERVAL_CHECK_UPLOAD_SEC: u64 = 47;

/// Seconds the download loop rests after the remote failed.
pub const RETRY_DELAY_SEC: u64 = 61;

/// A chunk on its way to the remote: its id and its bytes.
pub type Entry = (Seq<char>, Seq<u8>);

/// The number of bytes of the chunks of a batch.
pub open spec fn batch_bytes(batch: Seq<Entry>) -> nat
    decreases batch.len(),
{
    if batch.len() == 0 {
        0
    } else {
        batch_bytes(batch.drop_last()) + batch.last().1.len()
    }
}

/// The batches after one more chunk was queued. Where the last batch holds
/// a chunk and would hold more than `MAX_UPLOAD_SIZE` bytes with the new
/// one, a new batch is opened for it; else the chunk joins the last batch.
pub open spec fn queued(batches: Seq<Seq<Entry>>, entry: Entry) -> Seq<Seq<Entry>> {
    if batches.last().len() > 0 && batch_bytes(batches.last()) + entry.1.len()
        > MAX_UPLOAD_SIZE {
        batches.push(seq![entry])
    } else {
        batches.drop_last().push(batches.last().push(entry))
    }
}

/// The chunks of all batches, in the order in which they were queued.
pub open spec fn flattened(batches: Seq<Seq<Entry>>) -> Seq<Entry>
    decreases batches.len(),
{
    if batches.len() == 0 {
        Seq::empty()
    } else {
        flattened(batches.drop_last()) + batches.last()
    }
}

/// The batches that are sent: those that hold a chunk.
pub open spec fn sendable(batches: Seq<Seq<Entry>>) -> Seq<Seq<Entry>>
    decreases batches.len(),
{
    if batches.len() == 0 {
        Seq::empty()
    } else if batches.last().len() == 0 {
        sendable(batches.drop_last())
    } else {
        sendable(batches.drop_last()).push(batches.last())
    }
}

/// The views of a vector of batches.
pub open spec fn batches_view(v: Seq<Vec<(String, Vec<u8>)>>) -> Seq<Seq<Entry>> {
    v.map_values(|b: Vec<(String, Vec<u8>)>| batch_view(b@))
}

/// No batch of more than one chunk holds more than `MAX_UPLOAD_SIZE` bytes:
/// a chunk that is larger than that stands alone. Every batch but the last
/// holds a chunk.
pub open spec fn batches_bounded(batches: Seq<Seq<Entry>>) -> bool {
    &&& batches.len() >= 1
    &&& forall|k: int|
        0 <= k < batches.len() && (#[trigger] batches[k]).len() > 1 ==> batch_bytes(batches[k])
            <= MAX_UPLOAD_SIZE
    &&& forall|k: int| 0 <= k < batches.len() - 1 ==> (#[trigger] batches[k]).len() > 0
}

/// The batches are fit to send: each holds a chunk, and none of more than
/// one chunk holds more than `MAX_UPLOAD_SIZE` bytes.
pub open spec fn fit_to_send(batches: Seq<Seq<Entry>>) -> bool {
    forall|k: int|
        0 <= k < batches.len() ==> (#[trigger] batches[k]).len() > 0 && (batches[k].len() > 1
            ==> batch_bytes(batches[k]) <= MAX_UPLOAD_SIZE)
}

/// A batch with one more chunk holds the bytes of that chunk more.
pub proof fn lemma_batch_bytes_push(batch: Seq<Entry>, entry: Entry)
    ensures
        batch_bytes(batch.push(entry)) == batch_bytes(batch) + entry.1.len(),
{
    assert(batch.push(entry).drop_last() =~= batch);
}

/// Queueing a chunk keeps the chunks in the order in which they were
/// queued, and keeps the batches bounded.
pub proof fn lemma_queued(batches: Seq<Seq<Entry>>, entry: Entry)
    requires
        batches_bounded(batches),
    ensures
        batches_bounded(queued(batches, entry)),
        flattened(queued(batches, entry)) == flattened(batches).push(entry),
{
    let after = queued(batches, entry);
    if batches.last().len() > 0 && batch_bytes(batches.last()) + entry.1.len()
        > MAX_UPLOAD_SIZE {
        assert(after.drop_last() =~= batches);
        assert(flattened(after) =~= flattened(batches).push(entry));
        assert forall|k: int| 0 <= k < after.len() && (#[trigger] after[k]).len()
            > 1 implies batch_bytes(after[k]) <= MAX_UPLOAD_SIZE by {
            assert(after[k] == batches[k]);
        }
        assert forall|k: int| 0 <= k < after.len() - 1 implies (#[trigger] after[k]).len()
            > 0 by {
            assert(after[k] == batches[k]);
        }
    } else {
        let last = batches.last().push(entry);
        lemma_batch_bytes_push(batches.last(), entry);
        assert(after.drop_last() =~= batches.drop_last());
        assert(after.last() == last);
        assert(flattened(after) =~= flattened(batches).push(entry));
        assert forall|k: int| 0 <= k < after.len() && (#[trigger] after[k]).len()
            > 1 implies batch_bytes(after[k]) <= MAX_UPLOAD_SIZE by {
            if k < after.len() - 1 {
                assert(after[k] == batches[k]);
            }
        }
        assert forall|k: int| 0 <= k < after.len() - 1 implies (#[trigger] after[k]).len()
            > 0 by {
            assert(after[k] == batches[k]);
        }
    }
}

/// Among bounded batches only the last can be empty, so the batches that
/// are sent are all of them, or all but the last.
pub proof fn lemma_sendable(batches: Seq<Seq<Entry>>)
    requires
        batches.len() >= 1,
        forall|k: int| 0 <= k < batches.len() - 1 ==> (#[trigger] batches[k]).len() > 0,
    ensures
        sendable(batches) == if batches.last().len() == 0 {
            batches.drop_last()
        } else {
            batches
        },
        flattened(sendable(batches)) == flattened(batches),
    decreases batches.len(),
{
    let init = batches.drop_last();
    if init.len() >= 1 {
        assert forall|k: int| 0 <= k < init.len() - 1 implies (#[trigger] init[k]).len() > 0 by {
            assert(init[k] == batches[k]);
        }
        lemma_sendable(init);
        assert(init.last() == batches[batches.len() - 2]);
        assert(sendable(init) == init);
    } else {
        assert(sendable(init) =~= init);
    }
    if batches.last().len() == 0 {
        assert(flattened(batches) =~= flattened(init));
    } else {
        assert(init.push(batches.last()) =~= batches);
    }
}

/// The ids of the chunks of all batches, in the order in which they were
/// queued.
pub open spec fn queued_ids(batches: Seq<Seq<Entry>>) -> Seq<Seq<char>> {
    flattened(batches).map_values(|e: Entry| e.0)
}

/// The chunks of all batches are those of the batches but the last,
/// followed by those of the last.
proof fn lemma_flattened_take(batches: Seq<Seq<Entry>>, k: int)
    requires
        0 <= k < batches.len(),
    ensures
        flattened(batches.take(k + 1)) == flattened(batches.take(k)) + batches[k],
{
    assert(batches.take(k + 1).drop_last() =~= batches.take(k));
    assert(batches.take(k + 1).last() == batches[k]);
}

/// Every chunk of a batch is among the chunks of all batches.
proof fn lemma_flattened_has(batches: Seq<Seq<Entry>>, k: int, j: int)
    requires
        0 <= k < batches.len(),
        0 <= j < batches[k].len(),
    ensures
        exists|i: int| 0 <= i < flattened(batches).len() && flattened(batches)[i] == batches[k][j],
    decreases batches.len(),
{
    let init = batches.drop_last();
    if k == batches.len() - 1 {
        let i = flattened(init).len() + j;
        assert(flattened(batches)[i] == batches[k][j]);
    } else {
        lemma_flattened_has(init, k, j);
        let i = choose|i: int| 0 <= i < flattened(init).len() && flattened(init)[i] == init[k][j];
        assert(flattened(batches)[i] == batches[k][j]);
    }
}

/// The chunks that the remote asked for, in batches of bounded size.
pub struct UploadQueue {
    batches: Vec<Vec<(String, Vec<u8>)>>,
    size: usize,
}

impl View for UploadQueue {
    type V = Seq<Seq<Entry>>;

    closed spec fn view(&self) -> Seq<Seq<Entry>> {
        batches_view(self.batches@)
    }
}

impl UploadQueue {
    #[verifier::type_invariant]
    closed spec fn well_formed(&self) -> bool {
        &&& batches_bounded(batches_view(self.batches@))
        &&& self.size == batch_bytes(batches_view(self.batches@).last())
    }

    /// A queue of one batch, which is empty.
    pub fn new() -> (q: UploadQueue)
        ensures
            q@ == seq![Seq::<Entry>::empty()],
            batches_bounded(q@),
    {
        let mut batches: Vec<Vec<(String, Vec<u8>)>> = Vec::new();
        batches.push(Vec::new());
        proof {
            assert(batch_view(batches@[0]@) =~= Seq::<Entry>::empty());
            assert(batches_view(batches@) =~= seq![Seq::<Entry>::empty()]);
            assert(batch_bytes(Seq::<Entry>::empty()) == 0);
        }
        UploadQueue { batches, size: 0 }
    }

    /// Queues one more chunk.
    pub fn push(&mut self, id: String, data: Vec<u8>)
        ensures
            final(self)@ == queued(old(self)@, (id@, data@)),
            batches_bounded(final(self)@),
            flattened(final(self)@) == flattened(old(self)@).push((id@, data@)),
    {
        proof {
            use_type_invariant(&*self);
            lemma_queued(self@, (id@, data@));
        }
        let ghost before = self@;
        let ghost entry = (id@, data@);
        let mut taken = UploadQueue::new();
        core::mem::swap(&mut taken, self);
        let UploadQueue { batches: mut batches, size } = taken;
        let len: usize = data.len();
        let holds_a_chunk: bool = batches[batches.len() - 1].len() > 0;
        proof {
            assert(before.last() == batch_view(batches@[batches@.len() - 1]@));
            lemma_batch_bytes_push(before.last(), entry);
        }
        let new_size: usize = if holds_a_chunk && (size > MAX_UPLOAD_SIZE || len
            > MAX_UPLOAD_SIZE - size) {
            let mut opened: Vec<(String, Vec<u8>)> = Vec::new();
            opened.push((id, data));
            proof {
                assert(batch_view(opened@) =~= seq![entry]);
                assert(batches_view(batches@.push(opened)) =~= before.push(seq![entry]));
                assert(seq![entry] =~= Seq::<Entry>::empty().push(entry));
                lemma_batch_bytes_push(Seq::<Entry>::empty(), entry);
            }
            batches.push(opened);
            len
        } else {
            let mut last = batches.pop().unwrap();
            let ghost init = batches@;
            let ghost old_last = last@;
            last.push((id, data));
            proof {
                assert(batch_view(last@) =~= batch_view(old_last).push(entry));
                assert(batches_view(init) =~= before.drop_last());
                assert(batch_view(old_last) == before.last());
                if !holds_a_chunk {
                    assert(before.last() =~= Seq::<Entry>::empty());
                }
            }
            batches.push(last);
            proof {
                assert(batches_view(batches@) =~= before.drop_last().push(
                    before.last().push(entry),
                ));
            }
            size + len
        };
        *self = UploadQueue { batches, size: new_size };
    }

    /// Whether a chunk with this id is queued already.
    pub fn holds(&self, id: &str) -> (r: bool)
        ensures
            r == queued_ids(self@).contains(id@),
    {
        let ghost all = self@;
        let wanted = to_chars(id);
        let mut k: usize = 0;
        proof {
            assert(flattened(all.take(0)) =~= Seq::<Entry>::empty());
        }
        while k < self.batches.len()
            invariant
                k <= self.batches@.len(),
                all == self@,
                wanted@ == id@,
                forall|i: int|
                    0 <= i < flattened(all.take(k as int)).len() ==> (#[trigger] flattened(
                        all.take(k as int),
                    )[i]).0 != id@,
            decreases self.batches@.len() - k,
        {
            let batch = &self.batches[k];
            let ghost before = flattened(all.take(k as int));
            let mut j: usize = 0;
            proof {
                lemma_flattened_take(all, k as int);
                assert(all[k as int] == batch_view(batch@));
            }
            while j < batch.len()
                invariant
                    j <= batch@.len(),
                    k < self.batches@.len(),
                    all == self@,
                    wanted@ == id@,
                    all[k as int] == batch_view(batch@),
                    before == flattened(all.take(k as int)),
                    flattened(all.take(k + 1)) == before + all[k as int],
                    forall|i: int| 0 <= i < before.len() ==> (#[trigger] before[i]).0 != id@,
                    forall|i: int| 0 <= i < j ==> (#[trigger] all[k as int][i]).0 != id@,
                decreases batch@.len() - j,
            {
                let entry_id = to_chars(batch[j].0.as_str());
                if chars_eq(&entry_id, &wanted) {
                    proof {
                        let e = all[k as int][j as int];
                        assert(e.0 == id@);
                        lemma_flattened_has(all, k as int, j as int);
                        let i = choose|i: int|
                            0 <= i < flattened(all).len() && flattened(all)[i] == e;
                        assert(queued_ids(all)[i] == id@);
                    }
                    return true;
                }
                j += 1;
            }
            k += 1;
        }
        proof {
            assert(all.take(all.len() as int) =~= all);
            assert forall|i: int| 0 <= i < queued_ids(all).len() implies queued_ids(all)[i]
                != id@ by {
                assert(flattened(all)[i].0 != id@);
            }
        }
        false
    }

    /// The batches to send, in order: every batch that holds a chunk.
    pub fn into_batches(self) -> (batches: Vec<Vec<(String, Vec<u8>)>>)
        ensures
            batches_view(batches@) == sendable(self@),
            flattened(batches_view(batches@)) == flattened(self@),
            fit_to_send(batches_view(batches@)),
    {
        proof {
            use_type_invariant(&self);
            lemma_sendable(self@);
            let all = self@;
            let sent = sendable(all);
            assert forall|k: int| 0 <= k < sent.len() implies (#[trigger] sent[k]).len() > 0 && (
            sent[k].len() > 1 ==> batch_bytes(sent[k]) <= MAX_UPLOAD_SIZE) by {
                assert(sent[k] == all[k]);
            }
        }
        let mut batches = self.batches;
        let ghost all = batches_view(batches@);
        if batches[batches.len() - 1].is_empty() {
            let _ = batches.pop();
            proof {
                assert(all.last().len() == 0);
                assert(batches_view(batches@) =~= all.drop_last());
            }
        }
        batches
    }
}

/// The batches after the first `n` of the chunks `ids` were queued, each
/// with the bytes it stands for in a cache that holds `entries`. A chunk
/// that is queued already is not queued again.
pub open spec fn enqueued(
    batches: Seq<Seq<Entry>>,
    entries: Map<Seq<char>, Seq<u8>>,
    ids: Seq<Seq<char>>,
    n: int,
) -> Seq<Seq<Entry>>
    decreases n,
{
    if n <= 0 {
        batches
    } else {
        let before = enqueued(batches, entries, ids, n - 1);
        if queued_ids(before).contains(ids[n - 1]) {
            before
        } else {
            queued(before, (ids[n - 1], chunk_bytes(entries, ids[n - 1])->0))
        }
    }
}

/// Whether the first `n` of the chunks `ids` can be queued: each is queued
/// already when its turn comes, or is at hand in the cache.
pub open spec fn can_enqueue(
    batches: Seq<Seq<Entry>>,
    entries: Map<Seq<char>, Seq<u8>>,
    ids: Seq<Seq<char>>,
    n: int,
) -> bool
    decreases n,
{
    n <= 0 || (can_enqueue(batches, entries, ids, n - 1) && (queued_ids(
        enqueued(batches, entries, ids, n - 1),
    ).contains(ids[n - 1]) || chunk_bytes(entries, ids[n - 1]) is Some))
}

/// Where some chunks cannot be queued, neither can more of them.
pub proof fn lemma_can_enqueue_prefix(
    batches: Seq<Seq<Entry>>,
    entries: Map<Seq<char>, Seq<u8>>,
    ids: Seq<Seq<char>>,
    k: int,
    n: int,
)
    requires
        0 <= k <= n,
        !can_enqueue(batches, entries, ids, k),
    ensures
        !can_enqueue(batches, entries, ids, n),
    decreases n - k,
{
    if k < n {
        lemma_can_enqueue_prefix(batches, entries, ids, k, n - 1);
    }
}

/// No id occurs twice.
pub open spec fn distinct(ids: Seq<Seq<char>>) -> bool {
    forall|i: int, j: int| 0 <= i < j < ids.len() ==> ids[i] != ids[j]
}

/// Queueing the chunks that rows lack never queues a chunk twice: the ids
/// in the queue stay distinct, and bounded batches stay bounded.
pub proof fn lemma_enqueued_distinct(
    batches: Seq<Seq<Entry>>,
    entries: Map<Seq<char>, Seq<u8>>,
    ids: Seq<Seq<char>>,
    n: int,
)
    requires
        0 <= n <= ids.len(),
        batches_bounded(batches),
        distinct(queued_ids(batches)),
    ensures
        batches_bounded(enqueued(batches, entries, ids, n)),
        distinct(queued_ids(enqueued(batches, entries, ids, n))),
        forall|k: int|
            0 <= k < n ==> queued_ids(enqueued(batches, entries, ids, n)).contains(
                #[trigger] ids[k],
            ),
    decreases n,
{
    if n > 0 {
        lemma_enqueued_distinct(batches, entries, ids, n - 1);
        let before = enqueued(batches, entries, ids, n - 1);
        let after = enqueued(batches, entries, ids, n);
        let id = ids[n - 1];
        if queued_ids(before).contains(id) {
        } else {
            let entry = (id, chunk_bytes(entries, id)->0);
            lemma_queued(before, entry);
            assert(queued_ids(after) =~= queued_ids(before).push(id));
            assert forall|i: int, j: int| 0 <= i < j < queued_ids(after).len() implies queued_ids(
                after,
            )[i] != queued_ids(after)[j] by {
                if j == queued_ids(before).len() {
                    assert(queued_ids(before)[i] != id);
                }
            }
            assert forall|k: int| 0 <= k < n implies queued_ids(after).contains(
                #[trigger] ids[k],
            ) by {
                if k < n - 1 {
                    let i = choose|i: int|
                        0 <= i < queued_ids(before).len() && queued_ids(before)[i] == ids[k];
                    assert(queued_ids(after)[i] == ids[k]);
                } else {
                    assert(queued_ids(after)[queued_ids(before).len() as int] == id);
                }
            }
        }
    }
}

/// The chunk list that a tombstone is committed with: the empty id alone.
pub open spec fn tombstone_chunk_ids() -> Seq<char> {
    join_with(seq![Seq::<char>::empty()], ',')
}

/// What an upload pass knows when it ends.
pub struct UploadOutcome {
    /// The batches of chunks to send to the remote, in order.
    pub batches: Vec<Vec<(String, Vec<u8>)>>,
    /// Whether the remote accepted every row that the pass committed.
    pub all_committed: bool,
    /// Whether the loop may rest: every row was accepted, and there was
    /// no row at all.
    pub idle: bool,
}

/// One upload pass: the rows of the registry that the remote has not
/// accepted yet are committed one by one, in the order of their ids, and
/// the chunks that the remote asks for are queued.
pub struct UploadPass {
    queue: UploadQueue,
    all_committed: bool,
    saw_rows: bool,
}

impl UploadPass {
    /// The batches queued so far.
    pub closed spec fn queue(&self) -> Seq<Seq<Entry>> {
        self.queue@
    }

    /// Whether the remote accepted every row so far.
    pub closed spec fn all_committed(&self) -> bool {
        self.all_committed
    }

    /// Whether the pass has recorded the answer to a commit.
    pub closed spec fn saw_rows(&self) -> bool {
        self.saw_rows
    }

    /// A pass that has committed nothing yet.
    pub fn new() -> (p: UploadPass)
        ensures
            p.queue() == seq![Seq::<Entry>::empty()],
            p.all_committed(),
            !p.saw_rows(),
    {
        UploadPass { queue: UploadQueue::new(), all_committed: true, saw_rows: false }
    }

    /// The chunk list to commit the row with. A tombstone is committed
    /// with the empty id alone, and neither the chunker nor `content` is
    /// looked at. A file is committed with the ids of its chunks, with
    /// commas between them; its bytes are `content`, and its chunks enter
    /// the cache.
    pub fn chunk_ids(chunker: &mut Chunker, row: &FileRecord, content: &Vec<u8>) -> (r: Result<
        String,
        SyncError,
    >)
        ensures
            final(chunker).base() == old(chunker).base(),
            final(chunker).rules() == old(chunker).rules(),
            row.deleted ==> r is Ok && r->Ok_0@ == tombstone_chunk_ids() && final(chunker)@ == old(
                chunker,
            )@,
            !row.deleted ==> match r {
                Ok(list) => {
                    let format = old(chunker).rules().format_of(row.path@);
                    &&& format is Some
                    &&& list@ == join_with(
                        ids_of(chunks_for(format->0, content@), hash_size(format->0)),
                        ',',
                    )
                    &&& holds_only(
                        old(chunker)@,
                        final(chunker)@,
                        ids_of(chunks_for(format->0, content@), hash_size(format->0)),
                        chunks_for(format->0, content@),
                    )
                    &&& chunks_for(format->0, content@).len() == 0 ==> final(chunker)@ == old(
                        chunker,
                    )@
                },
                Err(e) => {
                    &&& old(chunker).rules().format_of(row.path@) is None
                    &&& e@ == SyncErrorView::UnlistedFileFormat(row.path@)
                    &&& final(chunker)@ == old(chunker)@
                },
            },
    {
        let ids = if row.deleted {
            let mut ids: Vec<String> = Vec::new();
            ids.push(String::new());
            proof {
                assert(views(ids@) =~= seq![Seq::<char>::empty()]);
            }
            ids
        } else {
            match chunker.hashify(row.path.as_str(), content) {
                Ok(ids) => ids,
                Err(e) => {
                    return Err(e);
                },
            }
        };
        Ok(join_chars(&ids, ','))
    }

    /// Queues the chunks `ids`, in order, each with its bytes from the
    /// cache, unless it is queued already. Stops at the first chunk that
    /// is neither queued nor at hand.
    fn enqueue(&mut self, chunker: &Chunker, ids: &Vec<String>) -> (r: Result<(), SyncError>)
        ensures
            final(self).all_committed() == old(self).all_committed(),
            final(self).saw_rows() == old(self).saw_rows(),
            r is Ok <==> can_enqueue(
                old(self).queue(),
                chunker@,
                views(ids@),
                ids@.len() as int,
            ),
            r is Ok ==> final(self).queue() == enqueued(
                old(self).queue(),
                chunker@,
                views(ids@),
                ids@.len() as int,
            ),
            r is Err ==> r->Err_0@ == SyncErrorView::GetFromCacheError,
    {
        let mut i: usize = 0;
        while i < ids.len()
            invariant
                i <= ids@.len(),
                self.all_committed() == old(self).all_committed(),
                self.saw_rows() == old(self).saw_rows(),
                can_enqueue(old(self).queue(), chunker@, views(ids@), i as int),
                self.queue() == enqueued(old(self).queue(), chunker@, views(ids@), i as int),
            decreases ids@.len() - i,
        {
            proof {
                assert(views(ids@)[i as int] == ids@[i as int]@);
            }
            if !self.queue.holds(ids[i].as_str()) {
                let data = match chunker.read_chunk(ids[i].as_str()) {
                    Ok(data) => data,
                    Err(e) => {
                        proof {
                            assert(!can_enqueue(
                                old(self).queue(),
                                chunker@,
                                views(ids@),
                                i + 1,
                            ));
                            lemma_can_enqueue_prefix(
                                old(self).queue(),
                                chunker@,
                                views(ids@),
                                i + 1,
                                ids@.len() as int,
                            );
                        }
                        return Err(e);
                    },
                };
                self.queue.push(ids[i].clone(), data);
            }
            i += 1;
        }
        Ok(())
    }

    /// Records the answer of the remote to the commit of `row`. Where the
    /// remote accepted the row, its jid is attached to the row. Where the
    /// remote asks for chunks, they are queued from the cache, and the
    /// pass has not committed everything; a chunk that the cache has lost
    /// fails the pass with `GetFromCacheError`. A chunk that several rows
    /// lack is queued once.
    pub fn record(
        &mut self,
        registry: &mut Registry,
        chunker: &Chunker,
        row: &FileRecord,
        answer: &CommitResultStatus,
    ) -> (r: Result<(), SyncError>)
        ensures
            final(self).saw_rows(),
            match answer@ {
                CommitResultView::Success(jid) => {
                    &&& final(registry)@ == attached(old(registry)@, row.id as int, jid)
                    &&& final(self).queue() == old(self).queue()
                    &&& final(self).all_committed() == old(self).all_committed()
                    &&& r is Ok <==> !attach_refused(old(registry)@, row.id as int, jid)
                    &&& r is Err ==> r->Err_0@ == SyncErrorView::DBQueryError(conflict_message())
                },
                CommitResultView::NeedChunks(list) => {
                    &&& final(registry)@ == old(registry)@
                    &&& !final(self).all_committed()
                    &&& r is Ok <==> can_enqueue(
                        old(self).queue(),
                        chunker@,
                        split_on(list, ','),
                        split_on(list, ',').len() as int,
                    )
                    &&& r is Ok ==> final(self).queue() == enqueued(
                        old(self).queue(),
                        chunker@,
                        split_on(list, ','),
                        split_on(list, ',').len() as int,
                    )
                    &&& r is Err ==> r->Err_0@ == SyncErrorView::GetFromCacheError
                },
            },
    {
        self.saw_rows = true;
        match answer {
            CommitResultStatus::Success(jid) => {
                match registry.update_jid(row, *jid) {
                    Ok(_) => Ok(()),
                    Err(e) => Err(e),
                }
            },
            CommitResultStatus::NeedChunks(list) => {
                self.all_committed = false;
                let ids = split_chars(list.as_str(), ',');
                self.enqueue(chunker, &ids)
            },
        }
    }

    /// Ends the pass: the batches to send, and whether the loop may rest.
    pub fn finish(self) -> (o: UploadOutcome)
        ensures
            batches_view(o.batches@) == sendable(self.queue()),
            flattened(batches_view(o.batches@)) == flattened(self.queue()),
            fit_to_send(batches_view(o.batches@)),
            o.all_committed == self.all_committed(),
            o.idle == (self.all_committed() && !self.saw_rows()),
    {
        let idle = self.all_committed && !self.saw_rows;
        let all_committed = self.all_committed;
        UploadOutcome { batches: self.queue.into_batches(), all_committed, idle }
    }
}

/// Among the first `n` of `ids`, those that are not at hand in a cache that
/// holds `entries`, in order and as often as they occur.
pub open spec fn missing(entries: Map<Seq<char>, Seq<u8>>, ids: Seq<Seq<char>>, n: int) -> Seq<
    Seq<char>,
>
    decreases n,
{
    if n <= 0 {
        Seq::empty()
    } else if chunk_bytes(entries, ids[n - 1]) is None {
        missing(entries, ids, n - 1).push(ids[n - 1])
    } else {
        missing(entries, ids, n - 1)
    }
}

/// The chunks of a listed revision: its chunk list, cut at the commas.
pub open spec fn chunk_list(record: crate::remote::ResponseFileRecordView) -> Seq<Seq<char>> {
    split_on(record.chunk_ids, ',')
}

/// Adds to `queue` the chunks of a listed revision that have to be
/// downloaded. A deleted revision needs none. For any other, the bytes of
/// the file as it is on disk now, if it is there, are hashed first, so that
/// the chunks it shares with the new revision are at hand; then every chunk
/// of the revision that the cache does not hold is queued.
pub fn collect_missing(
    chunker: &mut Chunker,
    record: &ResponseFileRecord,
    existing: Option<&Vec<u8>>,
    queue: &mut Vec<String>,
) -> (r: Result<(), SyncError>)
    ensures
        final(chunker).base() == old(chunker).base(),
        final(chunker).rules() == old(chunker).rules(),
        record.deleted ==> r is Ok && final(chunker)@ == old(chunker)@ && final(queue)@ == old(
            queue,
        )@,
        !record.deleted && existing is None ==> r is Ok && final(chunker)@ == old(chunker)@,
        !record.deleted && existing is Some ==> {
            let format = old(chunker).rules().format_of(record.path@);
            match r {
                Ok(_) => format is Some && holds_only(
                    old(chunker)@,
                    final(chunker)@,
                    ids_of(chunks_for(format->0, existing->0@), hash_size(format->0)),
                    chunks_for(format->0, existing->0@),
                ) && (chunks_for(format->0, existing->0@).len() == 0 ==> final(chunker)@ == old(
                    chunker,
                )@),
                Err(e) => {
                    &&& format is None
                    &&& e@ == SyncErrorView::UnlistedFileFormat(record.path@)
                    &&& final(chunker)@ == old(chunker)@
                    &&& final(queue)@ == old(queue)@
                },
            }
        },
        !record.deleted && r is Ok ==> views(final(queue)@) == views(old(queue)@) + missing(
            final(chunker)@,
            chunk_list(record@),
            chunk_list(record@).len() as int,
        ),
{
    if record.deleted {
        return Ok(());
    }
    match existing {
        Some(content) => {
            match chunker.hashify(record.path.as_str(), content) {
                Ok(_) => {},
                Err(e) => {
                    return Err(e);
                },
            }
        },
        None => {},
    }
    let ids = split_chars(record.chunk_ids.as_str(), ',');
    let mut i: usize = 0;
    let ghost list = chunk_list(record@);
    proof {
        assert(views(queue@) + missing(chunker@, list, 0) =~= views(queue@));
    }
    while i < ids.len()
        invariant
            i <= ids@.len(),
            views(ids@) == list,
            views(queue@) == views(old(queue)@) + missing(chunker@, list, i as int),
        decreases ids@.len() - i,
    {
        if !chunker.check_chunk(ids[i].as_str()) {
            let id = ids[i].clone();
            proof {
                assert(list[i as int] == ids@[i as int]@);
                assert(views(queue@.push(id)) =~= views(queue@).push(id@));
            }
            queue.push(id);
        } else {
            proof {
                assert(list[i as int] == ids@[i as int]@);
            }
        }
        i += 1;
    }
    Ok(())
}

/// Whether chunks have to be fetched before the listed revisions can be
/// applied: whenever the queue of missing chunks holds one.
pub fn needs_download(queue: &Vec<String>) -> (r: bool)
    ensures
        r == (queue@.len() > 0),
{
    !queue.is_empty()
}

/// The answer of a download pass: whether the remote listed anything.
pub fn pass_answer(records: &Vec<ResponseFileRecord>) -> (r: bool)
    ensures
        r == (records@.len() > 0),
{
    !records.is_empty()
}

/// What to do on disk for a listed revision.
#[derive(Debug)]
pub enum FileAction {
    /// Remove the file at this place, if it is there.
    Remove(String),
    /// Write this file.
    Write(FileWrite),
}

/// What to do on disk for a listed revision: a deleted one has its file
/// removed; any other has its file written with the bytes of its chunks,
/// one after the other. Every chunk must be at hand by now; where one is
/// missing nothing is to be written.
pub fn plan_record(chunker: &Chunker, record: &ResponseFileRecord) -> (r: Result<
    FileAction,
    SyncError,
>)
    ensures
        record.deleted ==> r is Ok && r->Ok_0 is Remove && r->Ok_0->Remove_0@ == joined_path(
            chunker.base(),
            record.path@,
        ),
        !record.deleted ==> match r {
            Ok(action) => {
                &&& action is Write
                &&& all_present(chunker@, chunk_list(record@))
                &&& action->Write_0.content@ == assembled(chunker@, chunk_list(record@))
                &&& action->Write_0.path@ == joined_path(chunker.base(), record.path@)
            },
            Err(e) => !all_present(chunker@, chunk_list(record@)) && e@
                == SyncErrorView::GetFromCacheError,
        },
{
    if record.deleted {
        return Ok(FileAction::Remove(chunker.full_path(record.path.as_str())));
    }
    let ids = split_chars(record.chunk_ids.as_str(), ',');
    let mut refs: Vec<&str> = Vec::new();
    let mut i: usize = 0;
    while i < ids.len()
        invariant
            i <= ids@.len(),
            str_views(refs@) == views(ids@).take(i as int),
        decreases ids@.len() - i,
    {
        let id: &str = ids[i].as_str();
        proof {
            assert(id@ == views(ids@)[i as int]);
            assert(views(ids@).take(i + 1) =~= views(ids@).take(i as int).push(id@));
            assert(str_views(refs@.push(id)) =~= str_views(refs@).push(id@));
        }
        refs.push(id);
        i += 1;
    }
    proof {
        assert(views(ids@).take(ids@.len() as int) =~= views(ids@));
    }
    match chunker.save(record.path.as_str(), refs) {
        Ok(w) => Ok(FileAction::Write(w)),
        Err(e) => Err(e),
    }
}

/// The row of a downloaded file: born with the jid of the remote.
pub open spec fn downloaded_row(
    path: Seq<char>,
    jid: int,
    namespace_id: int,
    size: int,
    modified_at: int,
) -> FormView {
    FormView { jid: Some(jid), path, deleted: false, size, modified_at, namespace_id }
}

/// The tombstone of a file that the remote reports as deleted: born with
/// the jid of the remote, of size 0, made at the time `now`.
pub open spec fn downloaded_tombstone(
    path: Seq<char>,
    jid: int,
    namespace_id: int,
    now: int,
) -> FormView {
    FormView { jid: Some(jid), path, deleted: true, size: 0, modified_at: now, namespace_id }
}

/// The row to insert for a file that was downloaded and written, from the
/// length and the modification time that it has on disk. A length that
/// does not fit the registry is refused with `Convert`.
pub fn build_file_record(
    path: &str,
    jid: i32,
    namespace_id: i32,
    len: u64,
    modified_at: Timestamp,
) -> (r: Result<CreateForm, SyncError>)
    ensures
        match r {
            Ok(form) => len <= i64::MAX && form@ == downloaded_row(
                path@,
                jid as int,
                namespace_id as int,
                len as int,
                modified_at.unix_nanos as int,
            ),
            Err(e) => len > i64::MAX && e@ == SyncErrorView::Convert,
        },
{
    if len > 9223372036854775807 {
        return Err(SyncError::Convert);
    }
    Ok(
        CreateForm {
            jid: Some(jid),
            path: path.to_string(),
            deleted: false,
            size: len as i64,
            modified_at,
            namespace_id,
        },
    )
}

/// The tombstone to insert for a file that the remote reports as deleted.
pub fn build_delete_form(path: &str, jid: i32, namespace_id: i32, now: Timestamp) -> (form:
    DeleteForm)
    ensures
        form@ == downloaded_tombstone(
            path@,
            jid as int,
            namespace_id as int,
            now.unix_nanos as int,
        ),
{
    DeleteForm {
        path: path.to_string(),
        jid: Some(jid),
        deleted: true,
        size: 0,
        modified_at: now,
        namespace_id,
    }
}

/// Records that the file of a listed revision was written: inserts its
/// row, which carries the jid of the revision.
pub fn record_saved(
    registry: &mut Registry,
    record: &ResponseFileRecord,
    namespace_id: i32,
    len: u64,
    modified_at: Timestamp,
) -> (r: Result<(), SyncError>)
    ensures
        match r {
            Ok(_) => len <= i64::MAX && final(registry)@ == old(registry)@.push(
                downloaded_row(
                    record.path@,
                    record.id as int,
                    namespace_id as int,
                    len as int,
                    modified_at.unix_nanos as int,
                ).with_id(next_id(old(registry)@)),
            ),
            Err(e) => {
                &&& final(registry)@ == old(registry)@
                &&& len > i64::MAX ==> e@ == SyncErrorView::Convert
                &&& len <= i64::MAX ==> next_id(old(registry)@) > i32::MAX && e@
                    == SyncErrorView::DBQueryError(full_message())
            },
        },
{
    let form = match build_file_record(
        record.path.as_str(),
        record.id,
        namespace_id,
        len,
        modified_at,
    ) {
        Ok(form) => form,
        Err(e) => {
            return Err(e);
        },
    };
    let mut forms: Vec<CreateForm> = Vec::new();
    forms.push(form);
    let ghost before = registry@;
    match registry.create(&forms) {
        Ok(_) => {
            proof {
                assert(appended(before, create_views(forms@), next_id(before)) =~= before.push(
                    forms@[0]@.with_id(next_id(before)),
                ));
            }
            Ok(())
        },
        Err(e) => Err(e),
    }
}

/// Records that the remote reports a file as deleted: inserts its
/// tombstone, which carries the jid of the revision.
pub fn record_deleted(
    registry: &mut Registry,
    record: &ResponseFileRecord,
    namespace_id: i32,
    now: Timestamp,
) -> (r: Result<(), SyncError>)
    ensures
        match r {
            Ok(_) => final(registry)@ == old(registry)@.push(
                downloaded_tombstone(
                    record.path@,
                    record.id as int,
                    namespace_id as int,
                    now.unix_nanos as int,
                ).with_id(next_id(old(registry)@)),
            ),
            Err(e) => {
                &&& final(registry)@ == old(registry)@
                &&& next_id(old(registry)@) > i32::MAX
                &&& e@ == SyncErrorView::DBQueryError(full_message())
            },
        },
{
    let form = build_delete_form(record.path.as_str(), record.id, namespace_id, now);
    let mut forms: Vec<DeleteForm> = Vec::new();
    forms.push(form);
    let ghost before = registry@;
    match registry.delete(&forms) {
        Ok(_) => {
            proof {
                assert(appended(before, delete_views(forms@), next_id(before)) =~= before.push(
                    forms@[0]@.with_id(next_id(before)),
                ));
            }
            Ok(())
        },
        Err(e) => Err(e),
    }
}

/// What happened since the download loop last said what to do.
#[derive(Debug)]
pub enum DownloadEvent {
    /// The loop begins.
    Start,
    /// A download pass ended; `Ok` says whether the remote listed anything.
    PassDone(Result<bool, SyncError>),
    /// A poll ended.
    PollDone(Result<(), SyncError>),
    /// The rest after a failure is over.
    SleepDone,
    /// The session was cancelled while the loop waited.
    Cancelled,
}

/// What the download loop does next.
#[derive(Debug)]
pub enum DownloadAction {
    /// Run a download pass. The status is `Downloading`.
    RunPass,
    /// Wait in a poll until the remote has news. The status is `Idle`.
    Poll,
    /// Rest for so many seconds, then try again.
    Sleep(u64),
    /// End the loop; nothing is wrong.
    Stop,
    /// End the loop with this error.
    Fail(SyncError),
}

/// Whether an error comes from the transport or the remote, and not from
/// this side.
pub open spec fn is_remote_failure(e: SyncErrorView) -> bool {
    e is Unknown || e is TransportError
}

/// What the download loop does next. `Unauthorized` ends the loop with
/// that error, whatever else holds. A cancelled session ends the loop.
/// Otherwise: a pass follows the start, a poll that ended well and every
/// rest; a poll follows a pass, also one that failed on this side; a rest
/// of `RETRY_DELAY_SEC` follows a pass that failed on the remote's side,
/// and a poll that failed.
pub open spec fn download_next(event: DownloadEvent, cancelled: bool) -> DownloadAction {
    match event {
        DownloadEvent::PassDone(Err(e)) => if e@ is Unauthorized {
            DownloadAction::Fail(e)
        } else if cancelled {
            DownloadAction::Stop
        } else if is_remote_failure(e@) {
            DownloadAction::Sleep(RETRY_DELAY_SEC)
        } else {
            DownloadAction::Poll
        },
        DownloadEvent::PollDone(Err(e)) => if e@ is Unauthorized {
            DownloadAction::Fail(e)
        } else if cancelled {
            DownloadAction::Stop
        } else {
            DownloadAction::Sleep(RETRY_DELAY_SEC)
        },
        DownloadEvent::Cancelled => DownloadAction::Stop,
        DownloadEvent::PassDone(Ok(_)) => if cancelled {
            DownloadAction::Stop
        } else {
            DownloadAction::Poll
        },
        DownloadEvent::Start | DownloadEvent::SleepDone | DownloadEvent::PollDone(Ok(_)) => if cancelled {
            DownloadAction::Stop
        } else {
            DownloadAction::RunPass
        },
    }
}

/// One decision of the download loop: what to do after `event`, given
/// whether the session is cancelled by now.
pub fn download_loop(event: DownloadEvent, cancelled: bool) -> (action: DownloadAction)
    ensures
        action == download_next(event, cancelled),
{
    match event {
        DownloadEvent::PassDone(Err(e)) => {
            if e.is_unauthorized() {
                DownloadAction::Fail(e)
            } else if cancelled {
                DownloadAction::Stop
            } else {
                let remote = match &e {
                    SyncError::Unknown(_) => true,
                    SyncError::TransportError(_) => true,
                    _ => false,
                };
                if remote {
                    DownloadAction::Sleep(RETRY_DELAY_SEC)
                } else {
                    DownloadAction::Poll
                }
            }
        },
        DownloadEvent::PollDone(Err(e)) => {
            if e.is_unauthorized() {
                DownloadAction::Fail(e)
            } else if cancelled {
                DownloadAction::Stop
            } else {
                DownloadAction::Sleep(RETRY_DELAY_SEC)
            }
        },
        DownloadEvent::Cancelled => DownloadAction::Stop,
        DownloadEvent::PassDone(Ok(_)) => {
            if cancelled {
                DownloadAction::Stop
            } else {
                DownloadAction::Poll
            }
        },
        _ => {
            if cancelled {
                DownloadAction::Stop
            } else {
                DownloadAction::RunPass
            }
        },
    }
}

/// What happened since the upload loop last said what to do.
#[derive(Debug)]
pub enum UploadEvent {
    /// The loop begins.
    Start,
    /// The delay before the first pass is over.
    DelayDone,
    /// An upload pass ended; `Ok` says whether the loop may rest.
    PassDone(Result<bool, SyncError>),
    /// The rest is over, or the indexer reported a change.
    WaitDone,
    /// The session was cancelled while the loop waited.
    Cancelled,
}

/// What the upload loop does next.
#[derive(Debug)]
pub enum UploadAction {
    /// Wait for so many seconds, whatever happens.
    Delay(u64),
    /// Run an upload pass. The status is `Uploading`.
    RunPass,
    /// Rest for so many seconds, or until the indexer reports a change.
    /// The status is `Idle`.
    Wait(u64),
    /// End the loop; nothing is wrong.
    Stop,
    /// End the loop with this error.
    Fail(SyncError),
}

/// What the upload loop does next. It begins with a delay of
/// `UPLOAD_START_DELAY_SEC`, to let the indexer fill the registry. A pass
/// that failed ends the loop with its error. A cancelled session ends the
/// loop. Otherwise a pass follows the delay and every rest; after a pass
/// the loop rests for `INTERVAL_CHECK_UPLOAD_SEC` where it may, and runs
/// the next pass at once where it may not.
pub open spec fn upload_next(event: UploadEvent, cancelled: bool) -> UploadAction {
    match event {
        UploadEvent::Start => UploadAction::Delay(UPLOAD_START_DELAY_SEC),
        UploadEvent::PassDone(Err(e)) => UploadAction::Fail(e),
        UploadEvent::Cancelled => UploadAction::Stop,
        UploadEvent::PassDone(Ok(idle)) => if cancelled {
            UploadAction::Stop
        } else if idle {
            UploadAction::Wait(INTERVAL_CHECK_UPLOAD_SEC)
        } else {
            UploadAction::RunPass
        },
        UploadEvent::DelayDone | UploadEvent::WaitDone => if cancelled {
            UploadAction::Stop
        } else {
            UploadAction::RunPass
        },
    }
}

/// One decision of the upload loop: what to do after `event`, given
/// whether the session is cancelled by now.
pub fn upload_loop(event: UploadEvent, cancelled: bool) -> (action: UploadAction)
    ensures
        action == upload_next(event, cancelled),
{
    match event {
        UploadEvent::Start => UploadAction::Delay(UPLOAD_START_DELAY_SEC),
        UploadEvent::PassDone(Err(e)) => UploadAction::Fail(e),
        UploadEvent::Cancelled => UploadAction::Stop,
        UploadEvent::PassDone(Ok(idle)) => {
            if cancelled {
                UploadAction::Stop
            } else if idle {
                UploadAction::Wait(INTERVAL_CHECK_UPLOAD_SEC)
            } else {
                UploadAction::RunPass
            }
        },
        _ => {
            if cancelled {
                UploadAction::Stop
            } else {
                UploadAction::RunPass
            }
        },
    }
}

impl DownloadAction {
    /// The status to report before the action is taken, if it changes.
    pub fn status(&self) -> (s: Option<SyncStatus>)
        ensures
            match self {
                DownloadAction::RunPass => s is Some && s->0 is Downloading,
                DownloadAction::Poll => s is Some && s->0 is Idle,
                _ => s is None,
            },
    {
        match self {
            DownloadAction::RunPass => Some(SyncStatus::Downloading),
            DownloadAction::Poll => Some(SyncStatus::Idle),
            _ => None,
        }
    }
}

impl UploadAction {
    /// The status to report before the action is taken, if it changes.
    pub fn status(&self) -> (s: Option<SyncStatus>)
        ensures
            match self {
                UploadAction::RunPass => s is Some && s->0 is Uploading,
                UploadAction::Wait(_) => s is Some && s->0 is Idle,
                _ => s is None,
            },
    {
        match self {
            UploadAction::RunPass => Some(SyncStatus::Uploading),
            UploadAction::Wait(_) => Some(SyncStatus::Idle),
            _ => None,
        }
    }
}

/// One of the two loops of the syncer.
#[derive(Debug, Clone, Copy, PartialEq, Eq, Structural)]
pub enum SyncLoop {
    Download,
    Upload,
}

/// What the driver of the two loops does when one of them ends.
#[derive(Debug)]
pub enum DriverAction {
    /// The other loop is still running: wait for it.
    KeepGoing,
    /// Both loops have ended well: the session ends well.
    Finish,
    /// A loop failed: cancel the other one, and end the session with this
    /// error.
    CancelAndFail(SyncError),
}

/// The two loops of a session, run side by side: both must end well for
/// the session to end well, and the first that fails ends the other.
pub struct Syncer {
    download_running: bool,
    upload_running: bool,
}

impl Syncer {
    /// Whether the download loop is running.
    pub closed spec fn downloading(&self) -> bool {
        self.download_running
    }

    /// Whether the upload loop is running.
    pub closed spec fn uploading(&self) -> bool {
        self.upload_running
    }

    /// Whether the given loop is running.
    pub fn is_running(&self, which: SyncLoop) -> (r: bool)
        ensures
            r == match which {
                SyncLoop::Download => self.downloading(),
                SyncLoop::Upload => self.uploading(),
            },
    {
        match which {
            SyncLoop::Download => self.download_running,
            SyncLoop::Upload => self.upload_running,
        }
    }

    /// Records that a loop ended, and says what the driver does next.
    pub fn loop_ended(&mut self, which: SyncLoop, result: Result<(), SyncError>) -> (action:
        DriverAction)
        ensures
            final(self).downloading() == (old(self).downloading() && which != SyncLoop::Download
                && result is Ok),
            final(self).uploading() == (old(self).uploading() && which != SyncLoop::Upload
                && result is Ok),
            match result {
                Err(e) => action == DriverAction::CancelAndFail(e),
                Ok(_) => if final(self).downloading() || final(self).uploading() {
                    action is KeepGoing
                } else {
                    action is Finish
                },
            },
    {
        match result {
            Err(e) => {
                self.download_running = false;
                self.upload_running = false;
                DriverAction::CancelAndFail(e)
            },
            Ok(_) => {
                match which {
                    SyncLoop::Download => {
                        self.download_running = false;
                    },
                    SyncLoop::Upload => {
                        self.upload_running = false;
                    },
                }
                if self.download_running || self.upload_running {
                    DriverAction::KeepGoing
                } else {
                    DriverAction::Finish
                }
            },
        }
    }
}

/// Begins a session of the syncer: the download loop always runs, the
/// upload loop unless the session only downloads.
pub fn run(read_only: bool) -> (s: Syncer)
    ensures
        s.downloading(),
        s.uploading() == !read_only,
{
    Syncer { download_running: true, upload_running: !read_only }
}

} // verus!
