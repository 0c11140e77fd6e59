//! The chunker: cuts files into chunks, names each chunk after its bytes,
//! keeps the chunks in the cache and rebuilds files from cached chunks.
//!
//! The chunker never touches the disk. It is handed the bytes of a file to
//! hash, and hands back the bytes of a file to write.

use vstd::prelude::*;
use vstd::string::*;
use crate::cache::{chunk_bytes, stored, InMemoryCache};
use crate::chunks::{
    binary_chunks, byte_views, concat_all, lemma_binary_round_trip, lemma_text_round_trip,
    split_binary, split_text, text_chunks, BINARY_CHUNK_SIZE,
};
use crate::errors::{SyncError, SyncErrorView};
use crate::formats::FormatRules;
use crate::hashing::{all_lower_hex, hash, hash_of, BINARY_HASH_SIZE, DIGEST_HEX_LEN, TEXT_HASH_SIZE};
use crate::models::FileFormat;
use crate::paths::{join_path, joined_path};
use crate::text::{
    join_with, lemma_split_join, lemma_split_of_nothing, split_on, views,
};

verus! {

/// The chunks of a file of the given format.
pub open spec fn chunks_for(format: FileFormat, content: Seq<u8>) -> Seq<Seq<u8>> {
    match format {
        FileFormat::Text => text_chunks(content),
        FileFormat::Binary => binary_chunks(content, BINARY_CHUNK_SIZE as int),
    }
}

/// The number of digits in the id of a chunk of the given format.
pub open spec fn hash_size(format: FileFormat) -> nat {
    match format {
        FileFormat::Text => TEXT_HASH_SIZE as nat,
        FileFormat::Binary => BINARY_HASH_SIZE as nat,
    }
}

/// The ids of the chunks, each the first `size` digits of its digest.
pub open spec fn ids_of(chunks: Seq<Seq<u8>>, size: nat) -> Seq<Seq<char>> {
    chunks.map_values(|c: Seq<u8>| hash_of(c, size))
}

/// Every entry of `after` is an entry of `before` with the same bytes, or
/// one of `chunks` under its id.
pub open spec fn holds_only(
    before: Map<Seq<char>, Seq<u8>>,
    after: Map<Seq<char>, Seq<u8>>,
    ids: Seq<Seq<char>>,
    chunks: Seq<Seq<u8>>,
) -> bool {
    forall|k: Seq<char>| #[trigger]
        after.contains_key(k) ==> (before.contains_key(k) && before[k] == after[k]) || exists|
            i: int,
        |
            0 <= i < ids.len() && i < chunks.len() && #[trigger] ids[i] == k && chunks[i]
                == after[k]
}

/// Every id stands for some bytes: it is empty, or the cache holds it.
pub open spec fn all_present(entries: Map<Seq<char>, Seq<u8>>, ids: Seq<Seq<char>>) -> bool {
    forall|i: int| 0 <= i < ids.len() ==> (#[trigger] chunk_bytes(entries, ids[i])) is Some
}

/// The bytes the ids stand for, one after the other.
pub open spec fn assembled(entries: Map<Seq<char>, Seq<u8>>, ids: Seq<Seq<char>>) -> Seq<u8>
    decreases ids.len(),
{
    if ids.len() == 0 {
        Seq::empty()
    } else {
        assembled(entries, ids.drop_last()) + chunk_bytes(entries, ids.last())->0
    }
}

/// The views of a vector of string slices.
pub open spec fn str_views(v: Seq<&str>) -> Seq<Seq<char>> {
    v.map_values(|s: &str| s@)
}

/// Where the cache holds each chunk under its id, and no id is empty, the
/// ids assemble to the chunks put together.
pub proof fn lemma_assembled_is_concat(
    entries: Map<Seq<char>, Seq<u8>>,
    ids: Seq<Seq<char>>,
    chunks: Seq<Seq<u8>>,
)
    requires
        ids.len() == chunks.len(),
        forall|i: int|
            0 <= i < ids.len() ==> (#[trigger] ids[i]).len() > 0 && entries.contains_key(ids[i])
                && entries[ids[i]] == chunks[i],
    ensures
        all_present(entries, ids),
        assembled(entries, ids) == concat_all(chunks),
    decreases ids.len(),
{
    if ids.len() > 0 {
        lemma_assembled_is_concat(entries, ids.drop_last(), chunks.drop_last());
        assert(ids.last() == ids[ids.len() - 1]);
    }
    assert forall|i: int| 0 <= i < ids.len() implies (#[trigger] chunk_bytes(
        entries,
        ids[i],
    )) is Some by {
        assert(ids[i].len() > 0);
    }
}

/// No chunks at all assemble to no bytes at all.
pub proof fn lemma_nothing_assembles_to_nothing(entries: Map<Seq<char>, Seq<u8>>)
    ensures
        all_present(entries, Seq::<Seq<char>>::empty()),
        assembled(entries, Seq::<Seq<char>>::empty()) == Seq::<u8>::empty(),
{
}

/// A file survives the whole way: cut into chunks, the ids of the chunks
/// joined into one list with commas, the list split again, and the chunks
/// of the list put together from a cache that holds each chunk under its
/// id. The ids are digits of hexadecimal and not empty, as the ids of
/// chunks are.
pub proof fn lemma_list_round_trip(
    entries: Map<Seq<char>, Seq<u8>>,
    ids: Seq<Seq<char>>,
    chunks: Seq<Seq<u8>>,
)
    requires
        ids.len() == chunks.len(),
        forall|i: int|
            0 <= i < ids.len() ==> (#[trigger] ids[i]).len() > 0 && all_lower_hex(ids[i])
                && entries.contains_key(ids[i]) && entries[ids[i]] == chunks[i],
    ensures
        all_present(entries, split_on(join_with(ids, ','), ',')),
        assembled(entries, split_on(join_with(ids, ','), ',')) == concat_all(chunks),
{
    if ids.len() == 0 {
        lemma_split_of_nothing(',');
        let list = seq![Seq::<char>::empty()];
        assert(list.drop_last() =~= Seq::<Seq<char>>::empty());
        assert(assembled(entries, list.drop_last()) =~= Seq::<u8>::empty());
        assert(list.last() == Seq::<char>::empty());
        assert(chunk_bytes(entries, list.last()) == Some(Seq::<u8>::empty()));
        assert(assembled(entries, list) =~= Seq::<u8>::empty());
        assert forall|i: int| 0 <= i < list.len() implies (#[trigger] chunk_bytes(
            entries,
            list[i],
        )) is Some by {
            assert(list[i].len() == 0);
        }
        assert(concat_all(chunks) =~= Seq::<u8>::empty());
    } else {
        assert forall|k: int, j: int|
            0 <= k < ids.len() && 0 <= j < ids[k].len() implies ids[k][j] != ',' by {
            assert(all_lower_hex(ids[k]));
            assert(crate::hashing::is_lower_hex(ids[k][j]));
        }
        lemma_split_join(ids, ',');
        lemma_assembled_is_concat(entries, ids, chunks);
    }
}

/// A text file survives the whole way, and so does a binary file.
pub proof fn lemma_file_round_trip(
    entries: Map<Seq<char>, Seq<u8>>,
    format: FileFormat,
    content: Seq<u8>,
)
    requires
        forall|i: int|
            0 <= i < chunks_for(format, content).len() ==> {
                let id = #[trigger] ids_of(chunks_for(format, content), hash_size(format))[i];
                id.len() > 0 && all_lower_hex(id) && entries.contains_key(id) && entries[id]
                    == chunks_for(format, content)[i]
            },
    ensures
        assembled(
            entries,
            split_on(join_with(ids_of(chunks_for(format, content), hash_size(format)), ','), ','),
        ) == content,
{
    let chunks = chunks_for(format, content);
    let ids = ids_of(chunks, hash_size(format));
    lemma_list_round_trip(entries, ids, chunks);
    match format {
        FileFormat::Text => {
            lemma_text_round_trip(content);
        },
        FileFormat::Binary => {
            lemma_binary_round_trip(content, BINARY_CHUNK_SIZE as int);
        },
    }
}

/// A file to write: where, and what.
#[derive(Debug)]
pub struct FileWrite {
    pub path: String,
    pub content: Vec<u8>,
}

/// Cuts files into chunks and rebuilds files from chunks, through a cache.
pub struct Chunker {
    cache: InMemoryCache,
    base_path: String,
    rules: FormatRules,
}

impl View for Chunker {
    type V = Map<Seq<char>, Seq<u8>>;

    /// What the chunker's cache holds.
    closed spec fn view(&self) -> Map<Seq<char>, Seq<u8>> {
        self.cache@
    }
}

impl Chunker {
    /// The directory under which the chunker's files lie.
    pub closed spec fn base(&self) -> Seq<char> {
        self.base_path@
    }

    /// The rules by which the chunker classifies paths.
    pub closed spec fn rules(&self) -> FormatRules {
        self.rules
    }

    /// A chunker over `cache` for the files under `base_path`, with the
    /// default format rules.
    pub fn new(cache: InMemoryCache, base_path: String) -> (c: Chunker)
        ensures
            c@ == cache@,
            c.base() == base_path@,
            forall|p: Seq<char>| c.rules().format_of(p) == FormatRules::default_format_of(p),
    {
        let rules = FormatRules::new();
        Chunker { cache, base_path, rules }
    }

    /// A chunker over `cache` for the files under `base_path`, classifying
    /// paths by `rules`.
    pub fn with_rules(cache: InMemoryCache, base_path: String, rules: FormatRules) -> (c: Chunker)
        ensures
            c@ == cache@,
            c.base() == base_path@,
            c.rules() == rules,
    {
        Chunker { cache, base_path, rules }
    }

    /// The format of `path` under the chunker's rules; `None` for a path
    /// that the chunker does not chunk.
    pub fn classify(&self, path: &str) -> (f: Option<FileFormat>)
        ensures
            f == self.rules().format_of(path@),
    {
        self.rules.classify(path)
    }

    /// Where the tenant-relative `path` lies on disk.
    pub fn full_path(&self, path: &str) -> (full: String)
        ensures
            full@ == joined_path(self.base(), path@),
    {
        join_path(self.base_path.as_str(), path)
    }

    /// The first `size` hexadecimal digits of the SHA-256 digest of `data`.
    pub fn hash(&self, data: &Vec<u8>, size: usize) -> (id: String)
        requires
            size <= DIGEST_HEX_LEN,
        ensures
            id@ == hash_of(data@, size as nat),
            id@.len() == size,
            all_lower_hex(id@),
            forall|shorter: nat|
                shorter <= size ==> #[trigger] hash_of(data@, shorter) == id@.take(
                    shorter as int,
                ),
    {
        hash(data, size)
    }

    /// The bytes of the chunk `chunk_hash`: empty for the empty id, the
    /// cached bytes for a cached id, `GetFromCacheError` otherwise.
    pub fn read_chunk(&self, chunk_hash: &str) -> (r: Result<Vec<u8>, SyncError>)
        ensures
            match r {
                Ok(bytes) => chunk_bytes(self@, chunk_hash@) == Some(bytes@),
                Err(e) => chunk_bytes(self@, chunk_hash@) is None && e@
                    == SyncErrorView::GetFromCacheError,
            },
    {
        self.cache.get(chunk_hash)
    }

    /// Stores `content` in the cache under `chunk_hash`, unless that is the
    /// empty id, which is never stored. Always succeeds; entries may be
    /// evicted, but every entry that remains keeps its bytes.
    pub fn save_chunk(&mut self, chunk_hash: &str, content: Vec<u8>) -> (r: Result<(), SyncError>)
        ensures
            r is Ok,
            stored(old(self)@, final(self)@, chunk_hash@, content@),
            final(self).base() == old(self).base(),
            final(self).rules() == old(self).rules(),
    {
        self.cache.set(chunk_hash, content)
    }

    /// Whether two lists of chunk ids are the same list: the same ids in
    /// the same order.
    pub fn compare_sets(&self, left: Vec<String>, right: Vec<String>) -> (r: bool)
        ensures
            r == (views(left@) == views(right@)),
    {
        if left.len() != right.len() {
            return false;
        }
        let mut i: usize = 0;
        while i < left.len()
            invariant
                left@.len() == right@.len(),
                i <= left@.len(),
                views(left@).take(i as int) == views(right@).take(i as int),
            decreases left@.len() - i,
        {
            if left[i] != right[i] {
                proof {
                    assert(views(left@)[i as int] != views(right@)[i as int]);
                }
                return false;
            }
            proof {
                assert(views(left@).take(i + 1) =~= views(left@).take(i as int).push(
                    left@[i as int]@,
                ));
                assert(views(right@).take(i + 1) =~= views(right@).take(i as int).push(
                    right@[i as int]@,
                ));
            }
            i += 1;
        }
        proof {
            assert(views(left@).take(left@.len() as int) =~= views(left@));
            assert(views(right@).take(right@.len() as int) =~= views(right@));
        }
        true
    }

    /// Whether the chunk `chunk_hash` is at hand: always for the empty id,
    /// else when the cache holds it.
    pub fn check_chunk(&self, chunk_hash: &str) -> (r: bool)
        ensures
            r == (chunk_bytes(self@, chunk_hash@) is Some),
    {
        if chunk_hash.unicode_len() == 0 {
            true
        } else {
            self.cache.contains(chunk_hash)
        }
    }
}

/// One more chunk stored keeps `holds_only`, with the chunk and its id added
/// to the lists.
proof fn lemma_holds_only_step(
    before: Map<Seq<char>, Seq<u8>>,
    cur: Map<Seq<char>, Seq<u8>>,
    next: Map<Seq<char>, Seq<u8>>,
    ids: Seq<Seq<char>>,
    chunks: Seq<Seq<u8>>,
    id: Seq<char>,
    chunk: Seq<u8>,
)
    requires
        ids.len() == chunks.len(),
        holds_only(before, cur, ids, chunks),
        next.submap_of(cur.insert(id, chunk)),
    ensures
        holds_only(before, next, ids.push(id), chunks.push(chunk)),
{
    let ids2 = ids.push(id);
    let chunks2 = chunks.push(chunk);
    assert forall|k: Seq<char>| #[trigger] next.contains_key(k) implies (before.contains_key(k)
        && before[k] == next[k]) || exists|i: int|
        0 <= i < ids2.len() && i < chunks2.len() && #[trigger] ids2[i] == k && chunks2[i]
            == next[k] by {
        assert(cur.insert(id, chunk).contains_key(k));
        if k == id {
            let i = ids.len() as int;
            assert(ids2[i] == k && chunks2[i] == next[k]);
        } else {
            assert(cur.contains_key(k));
            if !(before.contains_key(k) && before[k] == cur[k]) {
                let i = choose|i: int|
                    0 <= i < ids.len() && i < chunks.len() && #[trigger] ids[i] == k && chunks[i]
                        == cur[k];
                assert(ids2[i] == k && chunks2[i] == next[k]);
            }
        }
    }
}

impl Chunker {
    /// Cuts `chunks` into the cache, each under the first `size` digits of
    /// its digest, and returns the ids in order.
    fn store_chunks(&mut self, chunks: &Vec<Vec<u8>>, size: usize) -> (ids: Vec<String>)
        requires
            0 < size <= DIGEST_HEX_LEN,
        ensures
            views(ids@) == ids_of(byte_views(chunks@), size as nat),
            forall|k: int|
                0 <= k < ids@.len() ==> (#[trigger] views(ids@)[k]).len() == size && all_lower_hex(
                    views(ids@)[k],
                ),
            holds_only(old(self)@, final(self)@, views(ids@), byte_views(chunks@)),
            chunks@.len() == 0 ==> final(self)@ == old(self)@,
            final(self).base() == old(self).base(),
            final(self).rules() == old(self).rules(),
    {
        let mut ids: Vec<String> = Vec::new();
        let mut i: usize = 0;
        proof {
            assert(views(ids@) =~= ids_of(byte_views(chunks@).take(0), size as nat));
        }
        while i < chunks.len()
            invariant
                i <= chunks@.len(),
                0 < size <= DIGEST_HEX_LEN,
                views(ids@) == ids_of(byte_views(chunks@).take(i as int), size as nat),
                forall|k: int|
                    0 <= k < ids@.len() ==> (#[trigger] views(ids@)[k]).len() == size
                        && all_lower_hex(views(ids@)[k]),
                holds_only(old(self)@, self@, views(ids@), byte_views(chunks@).take(i as int)),
                i == 0 ==> self@ == old(self)@,
                self.base() == old(self).base(),
                self.rules() == old(self).rules(),
            decreases chunks@.len() - i,
        {
            let data = chunks[i].clone();
            let id = hash(&data, size);
            let ghost cur = self@;
            let r = self.save_chunk(id.as_str(), data);
            proof {
                let done = byte_views(chunks@).take(i as int);
                assert(byte_views(chunks@).take(i + 1) =~= done.push(chunks@[i as int]@));
                assert(views(ids@.push(id)) =~= views(ids@).push(id@));
                assert(ids_of(done.push(chunks@[i as int]@), size as nat) =~= ids_of(
                    done,
                    size as nat,
                ).push(id@));
                lemma_holds_only_step(
                    old(self)@,
                    cur,
                    self@,
                    views(ids@),
                    done,
                    id@,
                    chunks@[i as int]@,
                );
            }
            ids.push(id);
            i += 1;
        }
        proof {
            assert(byte_views(chunks@).take(chunks@.len() as int) =~= byte_views(chunks@));
        }
        ids
    }

    /// Cuts the file `path`, whose bytes are `content`, into chunks, stores
    /// each chunk in the cache under its id, and returns the ids in the
    /// order in which they rebuild the file. A file without a chunk, which
    /// is an empty file, leaves the cache as it is. A path of no listed
    /// format is refused, and the cache stays as it is.
    pub fn hashify(&mut self, path: &str, content: &Vec<u8>) -> (r: Result<Vec<String>, SyncError>)
        ensures
            final(self).base() == old(self).base(),
            final(self).rules() == old(self).rules(),
            match r {
                Ok(ids) => {
                    &&& old(self).rules().format_of(path@) is Some
                    &&& views(ids@) == ids_of(
                        chunks_for(old(self).rules().format_of(path@)->0, content@),
                        hash_size(old(self).rules().format_of(path@)->0),
                    )
                    &&& holds_only(
                        old(self)@,
                        final(self)@,
                        views(ids@),
                        chunks_for(old(self).rules().format_of(path@)->0, content@),
                    )
                    &&& forall|k: int|
                        0 <= k < ids@.len() ==> (#[trigger] views(ids@)[k]).len() == hash_size(
                            old(self).rules().format_of(path@)->0,
                        ) && all_lower_hex(views(ids@)[k])
                    &&& chunks_for(old(self).rules().format_of(path@)->0, content@).len() == 0
                        ==> final(self)@ == old(self)@
                },
                Err(e) => {
                    &&& old(self).rules().format_of(path@) is None
                    &&& e@ == SyncErrorView::UnlistedFileFormat(path@)
                    &&& final(self)@ == old(self)@
                },
            },
    {
        match self.rules.classify(path) {
            Some(FileFormat::Text) => {
                let chunks = split_text(content);
                Ok(self.store_chunks(&chunks, TEXT_HASH_SIZE))
            },
            Some(FileFormat::Binary) => {
                let chunks = split_binary(content);
                Ok(self.store_chunks(&chunks, BINARY_HASH_SIZE))
            },
            None => Err(SyncError::UnlistedFileFormat(path.to_string())),
        }
    }

    /// The file to write for `path`: the bytes of the chunks `hashes`, one
    /// after the other, at the place of `path` on disk. Every chunk must
    /// be at hand; where one is missing nothing is to be written.
    pub fn save(&self, path: &str, hashes: Vec<&str>) -> (r: Result<FileWrite, SyncError>)
        ensures
            match r {
                Ok(w) => {
                    &&& all_present(self@, str_views(hashes@))
                    &&& w.content@ == assembled(self@, str_views(hashes@))
                    &&& w.path@ == joined_path(self.base(), path@)
                },
                Err(e) => !all_present(self@, str_views(hashes@)) && e@
                    == SyncErrorView::GetFromCacheError,
            },
    {
        let mut content: Vec<u8> = Vec::new();
        let mut i: usize = 0;
        let ghost ids = str_views(hashes@);
        proof {
            assert(ids.take(0) =~= Seq::<Seq<char>>::empty());
        }
        while i < hashes.len()
            invariant
                i <= hashes@.len(),
                ids == str_views(hashes@),
                all_present(self@, ids.take(i as int)),
                content@ == assembled(self@, ids.take(i as int)),
            decreases hashes@.len() - i,
        {
            match self.cache.get(hashes[i]) {
                Ok(chunk) => {
                    proof {
                        let next = ids.take(i + 1);
                        assert(next.drop_last() =~= ids.take(i as int));
                        assert(next.last() == hashes@[i as int]@);
                        assert forall|j: int| 0 <= j < next.len() implies (#[trigger] chunk_bytes(
                            self@,
                            next[j],
                        )) is Some by {
                            if j < i {
                                assert(ids.take(i as int)[j] == next[j]);
                            }
                        }
                    }
                    content.extend_from_slice(chunk.as_slice());
                },
                Err(e) => {
                    proof {
                        assert(ids[i as int] == hashes@[i as int]@);
                    }
                    return Err(e);
                },
            }
            i += 1;
        }
        proof {
            assert(ids.take(hashes@.len() as int) =~= ids);
        }
        Ok(FileWrite { path: self.full_path(path), content })
    }
}

} // verus!

