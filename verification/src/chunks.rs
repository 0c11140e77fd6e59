//! How the bytes of a file are cut into chunks, and put together again.
//!
//! A text file is cut after every newline; a binary file is cut into blocks
//! of one mebibyte. Either way the chunks, in order, are the file.

use vstd::prelude::*;
use vstd::slice::{slice_subrange, slice_to_vec};

verus! {

/// The newline byte.
pub const NEWLINE: u8 = 10;

/// The size of a block of a binary file: one mebibyte.
pub const BINARY_CHUNK_SIZE: usize = 1048576;

/// The position of the first newline of `content` at or after `from`.
pub open spec fn newline_from(content: Seq<u8>, from: int) -> Option<int>
    decreases content.len() - from,
{
    if from < 0 || from >= content.len() {
        None
    } else if content[from] == NEWLINE {
        Some(from)
    } else {
        newline_from(content, from + 1)
    }
}

/// The chunks of a text file: one for each line, its newline included, and
/// one for what follows the last newline, if anything does.
pub open spec fn text_chunks(content: Seq<u8>) -> Seq<Seq<u8>>
    decreases content.len(),
{
    if content.len() == 0 {
        Seq::empty()
    } else {
        match newline_from(content, 0) {
            Some(i) => if 0 <= i < content.len() {
                seq![content.take(i + 1)] + text_chunks(content.skip(i + 1))
            } else {
                seq![content]
            },
            None => seq![content],
        }
    }
}

/// The chunks of a binary file: blocks of `block` bytes, the last one maybe
/// shorter but never empty.
pub open spec fn binary_chunks(content: Seq<u8>, block: int) -> Seq<Seq<u8>>
    decreases content.len(),
{
    if content.len() == 0 || block <= 0 {
        Seq::empty()
    } else if content.len() <= block {
        seq![content]
    } else {
        seq![content.take(block)] + binary_chunks(content.skip(block), block)
    }
}

/// The chunks put together, in order.
pub open spec fn concat_all(chunks: Seq<Seq<u8>>) -> Seq<u8>
    decreases chunks.len(),
{
    if chunks.len() == 0 {
        Seq::empty()
    } else {
        concat_all(chunks.drop_last()) + chunks.last()
    }
}

/// The views of a vector of byte vectors.
pub open spec fn byte_views(v: Seq<Vec<u8>>) -> Seq<Seq<u8>> {
    v.map_values(|c: Vec<u8>| c@)
}

/// What `newline_from` returns is the first newline from `from` on.
pub proof fn lemma_newline_from(content: Seq<u8>, from: int)
    requires
        0 <= from,
    ensures
        match newline_from(content, from) {
            Some(i) => from <= i < content.len() && content[i] == NEWLINE && forall|j: int|
                from <= j < i ==> content[j] != NEWLINE,
            None => forall|j: int| from <= j < content.len() ==> content[j] != NEWLINE,
        },
    decreases content.len() - from,
{
    if from < content.len() && content[from] != NEWLINE {
        lemma_newline_from(content, from + 1);
    }
}

/// A newline with none before it is the one `newline_from` returns.
pub proof fn lemma_newline_is(content: Seq<u8>, from: int, i: int)
    requires
        0 <= from <= i < content.len(),
        content[i] == NEWLINE,
        forall|j: int| from <= j < i ==> content[j] != NEWLINE,
    ensures
        newline_from(content, from) == Some(i),
    decreases i - from,
{
    if from < i {
        lemma_newline_is(content, from + 1, i);
    }
}

/// Where no newline follows, `newline_from` returns none.
pub proof fn lemma_newline_none(content: Seq<u8>, from: int)
    requires
        0 <= from,
        forall|j: int| from <= j < content.len() ==> content[j] != NEWLINE,
    ensures
        newline_from(content, from) is None,
    decreases content.len() - from,
{
    if from < content.len() {
        lemma_newline_none(content, from + 1);
    }
}

/// Putting together two runs of chunks, one after the other.
pub proof fn lemma_concat_append(a: Seq<Seq<u8>>, b: Seq<Seq<u8>>)
    ensures
        concat_all(a + b) == concat_all(a) + concat_all(b),
    decreases b.len(),
{
    if b.len() == 0 {
        assert(a + b =~= a);
        assert(concat_all(a) + concat_all(b) =~= concat_all(a));
    } else {
        assert((a + b).drop_last() =~= a + b.drop_last());
        assert((a + b).last() == b.last());
        lemma_concat_append(a, b.drop_last());
        assert(concat_all(a + b) =~= concat_all(a) + concat_all(b));
    }
}

/// One chunk put together is that chunk.
pub proof fn lemma_concat_one(c: Seq<u8>)
    ensures
        concat_all(seq![c]) == c,
{
    let one = seq![c];
    assert(one.drop_last() =~= Seq::<Seq<u8>>::empty());
    assert(concat_all(one.drop_last()) =~= Seq::<u8>::empty());
    assert(one.last() == c);
    assert(concat_all(one) =~= c);
}

/// The chunks of a text file, put together in order, are the file.
pub proof fn lemma_text_round_trip(content: Seq<u8>)
    ensures
        concat_all(text_chunks(content)) == content,
    decreases content.len(),
{
    if content.len() == 0 {
        assert(concat_all(text_chunks(content)) =~= content);
    } else {
        lemma_newline_from(content, 0);
        match newline_from(content, 0) {
            Some(i) => {
                lemma_text_round_trip(content.skip(i + 1));
                lemma_concat_append(seq![content.take(i + 1)], text_chunks(content.skip(i + 1)));
                lemma_concat_one(content.take(i + 1));
                assert(content.take(i + 1) + content.skip(i + 1) =~= content);
            },
            None => {
                lemma_concat_one(content);
            },
        }
    }
}

/// The blocks of a binary file, put together in order, are the file.
pub proof fn lemma_binary_round_trip(content: Seq<u8>, block: int)
    requires
        block > 0,
    ensures
        concat_all(binary_chunks(content, block)) == content,
    decreases content.len(),
{
    if content.len() == 0 {
        assert(concat_all(binary_chunks(content, block)) =~= content);
    } else if content.len() <= block {
        lemma_concat_one(content);
    } else {
        lemma_binary_round_trip(content.skip(block), block);
        lemma_concat_append(seq![content.take(block)], binary_chunks(content.skip(block), block));
        lemma_concat_one(content.take(block));
        assert(content.take(block) + content.skip(block) =~= content);
    }
}

/// An empty file has no chunks, as text and as binary.
pub proof fn lemma_empty_file_has_no_chunks(block: int)
    ensures
        text_chunks(Seq::<u8>::empty()).len() == 0,
        binary_chunks(Seq::<u8>::empty(), block).len() == 0,
{
}

/// Every text chunk is non-empty and holds no newline but, maybe, as its last
/// byte; every chunk but the last ends in a newline.
pub proof fn lemma_text_chunk_shape(content: Seq<u8>)
    ensures
        forall|k: int|
            0 <= k < text_chunks(content).len() ==> {
                let c = #[trigger] text_chunks(content)[k];
                &&& c.len() > 0
                &&& forall|j: int| 0 <= j < c.len() - 1 ==> c[j] != NEWLINE
                &&& k < text_chunks(content).len() - 1 ==> c.last() == NEWLINE
            },
    decreases content.len(),
{
    if content.len() > 0 {
        lemma_newline_from(content, 0);
        match newline_from(content, 0) {
            Some(i) => {
                let rest = text_chunks(content.skip(i + 1));
                let all = text_chunks(content);
                lemma_text_chunk_shape(content.skip(i + 1));
                assert forall|k: int| 0 <= k < all.len() implies {
                    let c = #[trigger] all[k];
                    &&& c.len() > 0
                    &&& forall|j: int| 0 <= j < c.len() - 1 ==> c[j] != NEWLINE
                    &&& k < all.len() - 1 ==> c.last() == NEWLINE
                } by {
                    if k > 0 {
                        assert(all[k] == rest[k - 1]);
                    }
                }
            },
            None => {},
        }
    }
}

/// A text file that does not end in a newline has a last chunk that holds
/// no newline at all.
pub proof fn lemma_text_without_final_newline(content: Seq<u8>)
    requires
        content.len() > 0,
        content.last() != NEWLINE,
    ensures
        text_chunks(content).len() > 0,
        forall|j: int|
            0 <= j < text_chunks(content).last().len() ==> text_chunks(content).last()[j]
                != NEWLINE,
    decreases content.len(),
{
    lemma_newline_from(content, 0);
    match newline_from(content, 0) {
        Some(i) => {
            let tail = content.skip(i + 1);
            assert(tail.len() > 0);
            assert(tail.last() == content.last());
            lemma_text_without_final_newline(tail);
            let rest = text_chunks(tail);
            assert(text_chunks(content).last() == rest.last());
        },
        None => {},
    }
}

/// A binary file of exactly `k` blocks has `k` chunks, each of one block.
pub proof fn lemma_binary_whole_blocks(content: Seq<u8>, block: int, k: nat)
    requires
        block > 0,
        content.len() == k * block,
    ensures
        binary_chunks(content, block).len() == k,
        forall|i: int|
            0 <= i < k ==> (#[trigger] binary_chunks(content, block)[i]).len() == block,
    decreases k,
{
    if k == 0 {
        assert(content.len() == 0) by (nonlinear_arith)
            requires
                content.len() == k * block,
                k == 0,
        ;
    } else if k == 1 {
        assert(content.len() == block) by (nonlinear_arith)
            requires
                content.len() == k * block,
                k == 1,
        ;
    } else {
        assert(content.len() == (k - 1) * block + block) by (nonlinear_arith)
            requires
                content.len() == k * block,
        ;
        assert((k - 1) * block >= block) by (nonlinear_arith)
            requires
                k >= 2,
                block > 0,
        ;
        let tail = content.skip(block);
        assert(tail.len() == (k - 1) * block);
        lemma_binary_whole_blocks(tail, block, (k - 1) as nat);
        let rest = binary_chunks(tail, block);
        let all = binary_chunks(content, block);
        assert forall|i: int| 0 <= i < k implies (#[trigger] all[i]).len() == block by {
            if i > 0 {
                assert(all[i] == rest[i - 1]);
            }
        }
    }
}

/// The bytes `content[from..to]` as a vector of their own.
fn copy_range(content: &Vec<u8>, from: usize, to: usize) -> (r: Vec<u8>)
    requires
        from <= to <= content@.len(),
    ensures
        r@ == content@.subrange(from as int, to as int),
{
    slice_to_vec(slice_subrange(content.as_slice(), from, to))
}

/// Cuts a text file into its chunks.
pub fn split_text(content: &Vec<u8>) -> (chunks: Vec<Vec<u8>>)
    ensures
        byte_views(chunks@) == text_chunks(content@),
{
    let mut chunks: Vec<Vec<u8>> = Vec::new();
    let mut start: usize = 0;
    let mut i: usize = 0;
    proof {
        assert(content@.skip(0) =~= content@);
        assert(byte_views(chunks@) =~= Seq::<Seq<u8>>::empty());
    }
    while i < content.len()
        invariant
            start <= i <= content@.len(),
            forall|j: int| start <= j < i ==> content@[j] != NEWLINE,
            text_chunks(content@) == byte_views(chunks@) + text_chunks(
                content@.skip(start as int),
            ),
        decreases content@.len() - i,
    {
        if content[i] == NEWLINE {
            let piece = copy_range(content, start, i + 1);
            proof {
                let rest = content@.skip(start as int);
                lemma_newline_is(rest, 0, i - start);
                assert(rest.take(i - start + 1) =~= piece@);
                assert(rest.skip(i - start + 1) =~= content@.skip(i + 1));
                assert(byte_views(chunks@.push(piece)) =~= byte_views(chunks@) + seq![piece@]);
            }
            chunks.push(piece);
            start = i + 1;
        }
        i += 1;
    }
    if start < content.len() {
        let piece = copy_range(content, start, content.len());
        proof {
            let rest = content@.skip(start as int);
            lemma_newline_none(rest, 0);
            assert(rest =~= piece@);
            assert(byte_views(chunks@.push(piece)) =~= byte_views(chunks@) + seq![piece@]);
        }
        chunks.push(piece);
    } else {
        proof {
            assert(content@.skip(start as int).len() == 0);
            assert(byte_views(chunks@) + Seq::<Seq<u8>>::empty() =~= byte_views(chunks@));
        }
    }
    chunks
}

/// Cuts a binary file into blocks of `BINARY_CHUNK_SIZE` bytes.
pub fn split_binary(content: &Vec<u8>) -> (chunks: Vec<Vec<u8>>)
    ensures
        byte_views(chunks@) == binary_chunks(content@, BINARY_CHUNK_SIZE as int),
{
    let mut chunks: Vec<Vec<u8>> = Vec::new();
    let mut start: usize = 0;
    proof {
        assert(content@.skip(0) =~= content@);
        assert(byte_views(chunks@) =~= Seq::<Seq<u8>>::empty());
    }
    while content.len() - start > BINARY_CHUNK_SIZE
        invariant
            start <= content@.len(),
            binary_chunks(content@, BINARY_CHUNK_SIZE as int) == byte_views(chunks@)
                + binary_chunks(content@.skip(start as int), BINARY_CHUNK_SIZE as int),
        decreases content@.len() - start,
    {
        let piece = copy_range(content, start, start + BINARY_CHUNK_SIZE);
        proof {
            let rest = content@.skip(start as int);
            assert(rest.take(BINARY_CHUNK_SIZE as int) =~= piece@);
            assert(rest.skip(BINARY_CHUNK_SIZE as int) =~= content@.skip(
                start + BINARY_CHUNK_SIZE,
            ));
            assert(byte_views(chunks@.push(piece)) =~= byte_views(chunks@) + seq![piece@]);
        }
        chunks.push(piece);
        start = start + BINARY_CHUNK_SIZE;
    }
    if start < content.len() {
        let piece = copy_range(content, start, content.len());
        proof {
            let rest = content@.skip(start as int);
            assert(rest =~= piece@);
            assert(byte_views(chunks@.push(piece)) =~= byte_views(chunks@) + seq![piece@]);
        }
        chunks.push(piece);
    } else {
        proof {
            assert(content@.skip(start as int).len() == 0);
            assert(byte_views(chunks@) + Seq::<Seq<u8>>::empty() =~= byte_views(chunks@));
        }
    }
    chunks
}

} // verus!
