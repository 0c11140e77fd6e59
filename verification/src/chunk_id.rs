//! Chunk ids as values of their own: only letters and digits of ASCII.

use vstd::prelude::*;
use vstd::string::*;
use crate::cache::chunk_bytes;
use crate::chunker::Chunker;
use crate::paths::{join_path, joined_path};
use crate::text::{from_chars, to_chars};

verus! {

/// A letter or a digit of ASCII.
pub open spec fn is_ascii_alphanumeric(c: char) -> bool {
    ('0' <= c && c <= '9') || ('a' <= c && c <= 'z') || ('A' <= c && c <= 'Z')
}

/// Every character is a letter or a digit of ASCII.
pub open spec fn all_alphanumeric(s: Seq<char>) -> bool {
    forall|i: int| 0 <= i < s.len() ==> is_ascii_alphanumeric(#[trigger] s[i])
}

/// Where the chunk `id` is kept under the directory `root`: in a directory
/// named after its first character, in one named after its second. An id
/// of less than two characters is kept in the directory `null`.
pub open spec fn stored_at(root: Seq<char>, id: Seq<char>) -> Seq<char> {
    if id.len() < 2 {
        joined_path(joined_path(root, "null"@), id)
    } else {
        joined_path(joined_path(joined_path(root, seq![id[0]]), seq![id[1]]), id)
    }
}

/// The id of a chunk. The empty id is the null chunk: it stands for no
/// bytes at all, and is always present.
#[derive(Debug)]
pub struct ChunkId {
    id: String,
}

impl View for ChunkId {
    type V = Seq<char>;

    closed spec fn view(&self) -> Seq<char> {
        self.id@
    }
}

impl ChunkId {
    #[verifier::type_invariant]
    closed spec fn well_formed(&self) -> bool {
        all_alphanumeric(self.id@)
    }

    /// The id that `param` spells, where every character of it is a letter
    /// or a digit of ASCII; `param` itself, as the error, where not.
    pub fn from_param(param: &str) -> (r: Result<ChunkId, String>)
        ensures
            match r {
                Ok(id) => all_alphanumeric(param@) && id@ == param@,
                Err(p) => !all_alphanumeric(param@) && p@ == param@,
            },
    {
        let chars = to_chars(param);
        let mut i: usize = 0;
        while i < chars.len()
            invariant
                i <= chars@.len(),
                chars@ == param@,
                forall|j: int| 0 <= j < i ==> is_ascii_alphanumeric(#[trigger] chars@[j]),
            decreases chars@.len() - i,
        {
            let c = chars[i];
            let ok = (c >= '0' && c <= '9') || (c >= 'a' && c <= 'z') || (c >= 'A' && c <= 'Z');
            if !ok {
                return Err(param.to_string());
            }
            i += 1;
        }
        Ok(ChunkId { id: param.to_string() })
    }

    /// The id as a string.
    pub fn id(&self) -> (s: &str)
        ensures
            s@ == self@,
            all_alphanumeric(s@),
    {
        proof {
            use_type_invariant(self);
        }
        self.id.as_str()
    }

    /// Whether the chunk is at hand: always for the null chunk, else when
    /// the cache of `chunker` holds it.
    pub fn is_present(&self, chunker: &Chunker) -> (r: bool)
        ensures
            r == (chunk_bytes(chunker@, self@) is Some),
    {
        chunker.check_chunk(self.id.as_str())
    }

    /// Where the chunk is kept under the directory `root`.
    pub fn file_path(&self, root: &str) -> (p: String)
        ensures
            p@ == stored_at(root@, self@),
    {
        let chars = to_chars(self.id.as_str());
        let inner = if chars.len() < 2 {
            join_path(root, "null")
        } else {
            let first = from_chars(&chars, 0, 1);
            let second = from_chars(&chars, 1, 2);
            proof {
                assert(first@ =~= seq![self@[0]]);
                assert(second@ =~= seq![self@[1]]);
            }
            let outer = join_path(root, first.as_str());
            join_path(outer.as_str(), second.as_str())
        };
        join_path(inner.as_str(), self.id.as_str())
    }
}

} // verus!
