//! Multipart bodies: the body of a batch upload, and the parts of a batch
//! download as they arrive.
//!
//! A download arrives in pieces of any size. The decoder keeps what has
//! arrived and not been used yet, hands out each part as soon as the
//! boundary after it has arrived, and keeps the rest.

use vstd::prelude::*;
use vstd::string::*;
use vstd::slice::{slice_subrange, slice_to_vec};
use vstd::utf8::{decode_utf8, valid_utf8};
use crate::errors::{SyncError, SyncErrorView};
use crate::text::{
    chars_find_from, chars_match_at, find_first, from_chars, index_of, lemma_find_from_is,
    lemma_find_from_least, lemma_find_from_none, lemma_single_match, matches_at, sub_chars,
    to_chars, trim, trimmed,
};

verus! {

/// The bytes that end the headers of a part: two line ends.
pub open spec fn double_crlf() -> Seq<u8> {
    seq![13u8, 10u8, 13u8, 10u8]
}

/// Whether `pat` occurs in `data` at position `i`.
fn bytes_match_at(data: &[u8], pat: &[u8], i: usize) -> (r: bool)
    ensures
        r == matches_at(data@, pat@, i as int),
{
    if pat.len() > data.len() || i > data.len() - pat.len() {
        return false;
    }
    let mut k: usize = 0;
    while k < pat.len()
        invariant
            i + pat@.len() <= data@.len() <= usize::MAX,
            k <= pat@.len(),
            data@.subrange(i as int, i + k) == pat@.take(k as int),
        decreases pat@.len() - k,
    {
        if data[i + k] != pat[k] {
            assert(data@.subrange(i as int, i + pat@.len())[k as int] != pat@[k as int]);
            return false;
        }
        assert(data@.subrange(i as int, i + k + 1) == data@.subrange(i as int, i + k).push(
            data@[i + k],
        ));
        assert(pat@.take(k + 1) == pat@.take(k as int).push(pat@[k as int]));
        k += 1;
    }
    assert(pat@.take(pat@.len() as int) == pat@);
    true
}

/// The first position where `boundary` occurs in `data`.
pub fn find_boundary(data: &[u8], boundary: &[u8]) -> (r: Option<usize>)
    ensures
        match r {
            Some(i) => find_first(data@, boundary@) == Some(i as int),
            None => find_first(data@, boundary@) is None,
        },
{
    let mut i: usize = 0;
    while i <= data.len() && boundary.len() <= data.len() - i
        invariant
            forall|j: int| 0 <= j < i ==> !matches_at(data@, boundary@, j),
        decreases data@.len() + 1 - i,
    {
        if bytes_match_at(data, boundary, i) {
            proof {
                lemma_find_from_is(data@, boundary@, 0, i as int);
            }
            return Some(i);
        }
        assert(boundary@.len() > 0) by {
            if boundary@.len() == 0 {
                assert(data@.subrange(i as int, i as int) =~= boundary@);
            }
        }
        i += 1;
    }
    proof {
        lemma_find_from_none(data@, boundary@, 0);
    }
    None
}

/// The first position where the headers of a part end: where two line
/// ends follow each other.
pub fn find_double_crlf(data: &[u8]) -> (r: Option<usize>)
    ensures
        match r {
            Some(i) => find_first(data@, double_crlf()) == Some(i as int),
            None => find_first(data@, double_crlf()) is None,
        },
{
    let pattern: [u8; 4] = [13, 10, 13, 10];
    proof {
        assert(pattern@ =~= double_crlf());
    }
    find_boundary(data, pattern.as_slice())
}

/// The next complete part of `buffer` and what remains after it: the part
/// is what stands between the first boundary and the one after it, and
/// what remains begins with that second boundary. `None` until both
/// boundaries have arrived.
pub open spec fn next_part(buffer: Seq<u8>, boundary: Seq<u8>) -> Option<(Seq<u8>, Seq<u8>)> {
    match find_first(buffer, boundary) {
        Some(start) => {
            let after = buffer.skip(start + boundary.len());
            match find_first(after, boundary) {
                Some(next) => Some((after.take(next), after.skip(next))),
                None => None,
            }
        },
        None => None,
    }
}

/// The part and the rest as a pair of views.
pub open spec fn pair_view(p: (Vec<u8>, Vec<u8>)) -> (Seq<u8>, Seq<u8>) {
    (p.0@, p.1@)
}

/// Extracts the next complete part from `buffer`, with what remains after
/// it. Never fails; `Ok(None)` means that more data is needed.
pub fn extract_next_part(buffer: &[u8], boundary: &[u8]) -> (r: Result<
    Option<(Vec<u8>, Vec<u8>)>,
    SyncError,
>)
    ensures
        r is Ok,
        match r->Ok_0 {
            Some(p) => next_part(buffer@, boundary@) == Some(pair_view(p)),
            None => next_part(buffer@, boundary@) is None,
        },
{
    if let Some(start) = find_boundary(buffer, boundary) {
        proof {
            lemma_find_from_least(buffer@, boundary@, 0);
        }
        let len: usize = buffer.len();
        let from: usize = start + boundary.len();
        let after = slice_subrange(buffer, from, len);
        proof {
            assert(after@ =~= buffer@.skip(from as int));
        }
        if let Some(next) = find_boundary(after, boundary) {
            proof {
                lemma_find_from_least(after@, boundary@, 0);
            }
            let part = slice_to_vec(slice_subrange(after, 0, next));
            let remaining = slice_to_vec(slice_subrange(after, next, after.len()));
            proof {
                assert(part@ =~= after@.take(next as int));
                assert(remaining@ =~= after@.skip(next as int));
            }
            Ok(Some((part, remaining)))
        } else {
            Ok(None)
        }
    } else {
        Ok(None)
    }
}

/// A line without the carriage return at its end, if it has one.
pub open spec fn strip_cr(line: Seq<char>) -> Seq<char> {
    if line.len() > 0 && line.last() == '\r' {
        line.drop_last()
    } else {
        line
    }
}

/// The name of the header that carries the chunk id of a part, with its
/// colon.
pub open spec fn chunk_id_header() -> Seq<char> {
    "X-Chunk-ID:"@
}

/// What separates the name of a header from its value.
pub open spec fn header_separator() -> Seq<char> {
    ": "@
}

/// The first line of `text` that begins with the chunk id header. Lines
/// end at a line feed; a carriage return before it is no part of the line.
pub open spec fn chunk_id_line(text: Seq<char>) -> Option<Seq<char>>
    decreases text.len(),
{
    if text.len() == 0 {
        None
    } else {
        match index_of(text, '\n') {
            Some(i) => if 0 <= i < text.len() {
                if matches_at(strip_cr(text.take(i)), chunk_id_header(), 0) {
                    Some(strip_cr(text.take(i)))
                } else {
                    chunk_id_line(text.skip(i + 1))
                }
            } else {
                None
            },
            None => if matches_at(text, chunk_id_header(), 0) {
                Some(text)
            } else {
                None
            },
        }
    }
}

/// What stands between the first and the second occurrence of `sep` in
/// `line`, or after the first where there is no second. `None` where `sep`
/// does not occur.
pub open spec fn second_piece(line: Seq<char>, sep: Seq<char>) -> Option<Seq<char>> {
    match find_first(line, sep) {
        Some(i) => {
            let rest = line.skip(i + sep.len());
            match find_first(rest, sep) {
                Some(j) => Some(rest.take(j)),
                None => Some(rest),
            }
        },
        None => None,
    }
}

/// `std::str::from_utf8`: the text that the bytes encode, where they are
/// valid UTF-8.
#[verifier::external_body]
fn utf8_text(bytes: &[u8]) -> (r: Option<String>)
    ensures
        r is Some <==> valid_utf8(bytes@),
        r is Some ==> r->0@ == decode_utf8(bytes@),
{
    std::str::from_utf8(bytes).ok().map(|s| s.to_string())
}

/// The first line of `text` that begins with the chunk id header.
fn find_chunk_id_line(text: &Vec<char>) -> (r: Option<Vec<char>>)
    ensures
        match r {
            Some(line) => chunk_id_line(text@) == Some(line@),
            None => chunk_id_line(text@) is None,
        },
{
    let prefix = to_chars("X-Chunk-ID:");
    let mut start: usize = 0;
    let mut i: usize = 0;
    proof {
        assert(text@.skip(0) =~= text@);
    }
    while i < text.len()
        invariant
            start <= i <= text@.len(),
            prefix@ == chunk_id_header(),
            forall|j: int| start <= j < i ==> text@[j] != '\n',
            chunk_id_line(text@) == chunk_id_line(text@.skip(start as int)),
        decreases text@.len() - i,
    {
        if text[i] == '\n' {
            let mut end: usize = i;
            if end > start && text[end - 1] == '\r' {
                end = end - 1;
            }
            let line = sub_chars(text, start, end);
            let ghost rest = text@.skip(start as int);
            proof {
                assert forall|j: int| 0 <= j < i - start implies !matches_at(
                    rest,
                    seq!['\n'],
                    j,
                ) by {
                    lemma_single_match(rest, '\n', j);
                }
                lemma_single_match(rest, '\n', i - start);
                lemma_find_from_is(rest, seq!['\n'], 0, i - start);
                assert(rest.take(i - start) =~= text@.subrange(start as int, i as int));
                assert(line@ =~= strip_cr(rest.take(i - start)));
                assert(rest.skip(i - start + 1) =~= text@.skip(i + 1));
            }
            if chars_match_at(&line, &prefix, 0) {
                return Some(line);
            }
            start = i + 1;
        }
        i += 1;
    }
    if start < text.len() {
        let line = sub_chars(text, start, text.len());
        let ghost rest = text@.skip(start as int);
        proof {
            assert forall|j: int| 0 <= j implies !matches_at(rest, seq!['\n'], j) by {
                lemma_single_match(rest, '\n', j);
            }
            lemma_find_from_none(rest, seq!['\n'], 0);
            assert(line@ =~= rest);
        }
        if chars_match_at(&line, &prefix, 0) {
            Some(line)
        } else {
            None
        }
    } else {
        None
    }
}

/// What stands between the first and the second occurrence of `sep` in
/// `line`.
fn take_second_piece(line: &Vec<char>, sep: &Vec<char>) -> (r: Option<String>)
    ensures
        match r {
            Some(piece) => second_piece(line@, sep@) == Some(piece@),
            None => second_piece(line@, sep@) is None,
        },
{
    match chars_find_from(line, sep, 0) {
        Some(i) => {
            proof {
                lemma_find_from_least(line@, sep@, 0);
            }
            let len: usize = line.len();
            let from: usize = i + sep.len();
            let rest = sub_chars(line, from, len);
            proof {
                assert(rest@ =~= line@.skip(from as int));
            }
            match chars_find_from(&rest, sep, 0) {
                Some(j) => {
                    proof {
                        lemma_find_from_least(rest@, sep@, 0);
                    }
                    let piece = from_chars(&rest, 0, j);
                    proof {
                        assert(piece@ =~= rest@.take(j as int));
                    }
                    Some(piece)
                },
                None => {
                    let piece = from_chars(&rest, 0, rest.len());
                    proof {
                        assert(piece@ =~= rest@);
                    }
                    Some(piece)
                },
            }
        },
        None => None,
    }
}

/// What one part of a batch download holds.
pub enum PartView {
    /// The part has no end of headers; it holds no chunk.
    NoHeaders,
    /// The part is malformed, for the reason given.
    Failed(Seq<char>),
    /// The part holds a chunk.
    Chunk { id: Seq<char>, content: Seq<u8> },
}

/// The message for headers that are not valid UTF-8.
pub open spec fn invalid_headers_message() -> Seq<char> {
    "Invalid headers"@
}

/// The message for a part without a chunk id.
pub open spec fn no_chunk_id_message() -> Seq<char> {
    "No chunk ID found"@
}

/// The message for a part that ends before its content does.
pub open spec fn cut_short_message() -> Seq<char> {
    "Part is cut short"@
}

/// What a part holds, with the value of the chunk id header as it stands.
/// The headers end at the first pair of line ends; the value of the chunk
/// id header is what follows its first `: `, up to the next one; the
/// content is what follows the headers, without the line end that closes
/// the part.
pub open spec fn read_part_spec(part: Seq<u8>) -> PartView {
    match find_first(part, double_crlf()) {
        None => PartView::NoHeaders,
        Some(end) => {
            let head = part.take(end);
            if !valid_utf8(head) {
                PartView::Failed(invalid_headers_message())
            } else {
                match chunk_id_line(decode_utf8(head)) {
                    None => PartView::Failed(no_chunk_id_message()),
                    Some(line) => match second_piece(line, header_separator()) {
                        None => PartView::Failed(no_chunk_id_message()),
                        Some(raw) => if part.len() < end + 6 {
                            PartView::Failed(cut_short_message())
                        } else {
                            PartView::Chunk {
                                id: raw,
                                content: part.subrange(end + 4, part.len() - 2),
                            }
                        },
                    },
                }
            }
        },
    }
}

/// What a part holds: as `read_part_spec` says, with the chunk id trimmed.
pub open spec fn parse_part(part: Seq<u8>) -> PartView {
    match read_part_spec(part) {
        PartView::Chunk { id, content } => PartView::Chunk { id: trimmed(id), content },
        other => other,
    }
}

/// Reads one part of a batch download, and leaves the value of the chunk id
/// header as it stands: the chunk that the part holds, `Ok(None)` for a
/// part without an end of headers, `BatchDownloadError` for a part that is
/// malformed.
pub fn read_part(part: &[u8]) -> (r: Result<Option<(String, Vec<u8>)>, SyncError>)
    ensures
        match r {
            Ok(Some(chunk)) => read_part_spec(part@) == (PartView::Chunk {
                id: chunk.0@,
                content: chunk.1@,
            }),
            Ok(None) => read_part_spec(part@) == PartView::NoHeaders,
            Err(e) => read_part_spec(part@) is Failed && e@ == SyncErrorView::BatchDownloadError(
                read_part_spec(part@)->Failed_0,
            ),
        },
{
    let end = match find_double_crlf(part) {
        Some(end) => end,
        None => {
            return Ok(None);
        },
    };
    proof {
        lemma_find_from_least(part@, double_crlf(), 0);
    }
    let head = slice_subrange(part, 0, end);
    proof {
        assert(head@ =~= part@.take(end as int));
    }
    let text = match utf8_text(head) {
        Some(text) => text,
        None => {
            return Err(SyncError::BatchDownloadError("Invalid headers".to_string()));
        },
    };
    let chars = to_chars(text.as_str());
    let line = match find_chunk_id_line(&chars) {
        Some(line) => line,
        None => {
            return Err(SyncError::BatchDownloadError("No chunk ID found".to_string()));
        },
    };
    let separator = to_chars(": ");
    let raw = match take_second_piece(&line, &separator) {
        Some(raw) => raw,
        None => {
            return Err(SyncError::BatchDownloadError("No chunk ID found".to_string()));
        },
    };
    if part.len() - end < 6 {
        return Err(SyncError::BatchDownloadError("Part is cut short".to_string()));
    }
    let content = slice_to_vec(slice_subrange(part, end + 4, part.len() - 2));
    Ok(Some((raw, content)))
}

/// Reads one part of a batch download: the chunk it holds, under its
/// trimmed id; `Ok(None)` for a part without an end of headers;
/// `BatchDownloadError` for a part that is malformed.
pub fn process_part(part: &[u8]) -> (r: Result<Option<(String, Vec<u8>)>, SyncError>)
    ensures
        match r {
            Ok(Some(chunk)) => parse_part(part@) == (PartView::Chunk {
                id: chunk.0@,
                content: chunk.1@,
            }),
            Ok(None) => parse_part(part@) == PartView::NoHeaders,
            Err(e) => parse_part(part@) is Failed && e@ == SyncErrorView::BatchDownloadError(
                parse_part(part@)->Failed_0,
            ),
        },
{
    match read_part(part) {
        Ok(Some((raw, content))) => Ok(Some((trim(raw.as_str()), content))),
        Ok(None) => Ok(None),
        Err(e) => Err(e),
    }
}

/// What the parameter of a content type that names the boundary begins
/// with.
pub open spec fn boundary_parameter() -> Seq<char> {
    "boundary="@
}

/// The bytes that separate the parts of a body whose content type names
/// `boundary`: two hyphens and the boundary.
pub open spec fn delimiter(boundary: Seq<char>) -> Seq<u8> {
    seq![45u8, 45u8] + vstd::utf8::encode_utf8(boundary)
}

/// The message for a response without a content type.
pub open spec fn no_content_type_message() -> Seq<char> {
    "No content-type header"@
}

/// The message for a content type that names no boundary.
pub open spec fn no_boundary_message() -> Seq<char> {
    "No boundary in content-type header"@
}

/// The next part of `buffer` that holds a chunk or is malformed, with what
/// remains of the buffer after it. Parts without an end of headers are
/// passed over. `None` where no complete part is left.
pub open spec fn decode_next(buffer: Seq<u8>, boundary: Seq<u8>) -> (Option<PartView>, Seq<u8>)
    decreases buffer.len(),
{
    match next_part(buffer, boundary) {
        None => (None, buffer),
        Some((part, rest)) => match parse_part(part) {
            PartView::NoHeaders => if rest.len() < buffer.len() {
                decode_next(rest, boundary)
            } else {
                (None, rest)
            },
            other => (Some(other), rest),
        },
    }
}

/// After a part was taken from a buffer, with a boundary that is not
/// empty, less is left than there was.
pub proof fn lemma_next_part_shrinks(buffer: Seq<u8>, boundary: Seq<u8>)
    requires
        boundary.len() > 0,
        next_part(buffer, boundary) is Some,
    ensures
        ({
            let rest = (next_part(buffer, boundary)->0).1;
            rest.len() < buffer.len()
        }),
{
    lemma_find_from_least(buffer, boundary, 0);
    let start = find_first(buffer, boundary)->0;
    let after = buffer.skip(start + boundary.len());
    lemma_find_from_least(after, boundary, 0);
}

/// The decoder of a batch download: it is fed the body as it arrives and
/// hands out the chunks one by one.
pub struct BatchDecoder {
    boundary: Vec<u8>,
    buffer: Vec<u8>,
}

impl BatchDecoder {
    #[verifier::type_invariant]
    closed spec fn well_formed(&self) -> bool {
        self.boundary@.len() > 0
    }

    /// The bytes that separate the parts.
    pub closed spec fn boundary(&self) -> Seq<u8> {
        self.boundary@
    }

    /// What has arrived and not been used yet.
    pub closed spec fn buffered(&self) -> Seq<u8> {
        self.buffer@
    }

    /// A decoder for a response with the given content type. The boundary
    /// is what follows `boundary=` in the content type, up to the next
    /// `boundary=` if there is one.
    pub fn new(content_type: Option<&str>) -> (r: Result<BatchDecoder, SyncError>)
        ensures
            match r {
                Ok(d) => {
                    &&& content_type is Some
                    &&& second_piece(content_type->0@, boundary_parameter()) is Some
                    &&& d.boundary() == delimiter(
                        second_piece(content_type->0@, boundary_parameter())->0,
                    )
                    &&& d.buffered().len() == 0
                },
                Err(e) => {
                    &&& content_type is None ==> e@ == SyncErrorView::BatchDownloadError(
                        no_content_type_message(),
                    )
                    &&& content_type is Some ==> second_piece(
                        content_type->0@,
                        boundary_parameter(),
                    ) is None && e@ == SyncErrorView::BatchDownloadError(no_boundary_message())
                },
            },
    {
        let content_type = match content_type {
            Some(c) => c,
            None => {
                return Err(SyncError::BatchDownloadError("No content-type header".to_string()));
            },
        };
        let chars = to_chars(content_type);
        let parameter = to_chars("boundary=");
        let name = match take_second_piece(&chars, &parameter) {
            Some(name) => name,
            None => {
                return Err(
                    SyncError::BatchDownloadError(
                        "No boundary in content-type header".to_string(),
                    ),
                );
            },
        };
        let mut boundary: Vec<u8> = Vec::new();
        boundary.push(45u8);
        boundary.push(45u8);
        boundary.extend_from_slice(name.as_str().as_bytes());
        proof {
            assert(boundary@ =~= delimiter(name@));
        }
        Ok(BatchDecoder { boundary, buffer: Vec::new() })
    }

    /// Takes in the bytes that arrived.
    pub fn push(&mut self, data: &[u8])
        ensures
            final(self).buffered() == old(self).buffered() + data@,
            final(self).boundary() == old(self).boundary(),
    {
        proof {
            use_type_invariant(&*self);
        }
        let mut buffer: Vec<u8> = Vec::new();
        core::mem::swap(&mut buffer, &mut self.buffer);
        buffer.extend_from_slice(data);
        core::mem::swap(&mut buffer, &mut self.buffer);
    }

    /// Whether the body has ended: what is left begins with the line that
    /// closes the body, the boundary followed by two hyphens.
    pub fn is_finished(&self) -> (r: bool)
        ensures
            r == matches_at(self.buffered(), self.boundary() + seq![45u8, 45u8], 0),
    {
        let mut closing = self.boundary.clone();
        closing.push(45u8);
        closing.push(45u8);
        proof {
            assert(closing@ =~= self.boundary@ + seq![45u8, 45u8]);
        }
        bytes_match_at(self.buffer.as_slice(), closing.as_slice(), 0)
    }

    /// Hands out the next chunk that has arrived in full, and forgets the
    /// bytes that held it. `Ok(None)` means that more data is needed; a
    /// malformed part is an error, and is forgotten too.
    pub fn next(&mut self) -> (r: Result<Option<(String, Vec<u8>)>, SyncError>)
        ensures
            final(self).boundary() == old(self).boundary(),
            final(self).buffered() == decode_next(old(self).buffered(), old(self).boundary()).1,
            match r {
                Ok(Some(chunk)) => decode_next(old(self).buffered(), old(self).boundary()).0
                    == Some(PartView::Chunk { id: chunk.0@, content: chunk.1@ }),
                Ok(None) => decode_next(old(self).buffered(), old(self).boundary()).0 is None,
                Err(e) => {
                    let step = decode_next(old(self).buffered(), old(self).boundary()).0;
                    step is Some && step->0 is Failed && e@ == SyncErrorView::BatchDownloadError(
                        step->0->Failed_0,
                    )
                },
            },
    {
        proof {
            use_type_invariant(&*self);
        }
        loop
            invariant
                self.boundary@.len() > 0,
                self.boundary() == old(self).boundary(),
                decode_next(self.buffered(), self.boundary()) == decode_next(
                    old(self).buffered(),
                    old(self).boundary(),
                ),
            decreases self.buffer@.len(),
        {
            let extracted = extract_next_part(self.buffer.as_slice(), self.boundary.as_slice());
            match extracted {
                Ok(Some((part, remaining))) => {
                    proof {
                        lemma_next_part_shrinks(self.buffer@, self.boundary@);
                    }
                    let parsed = process_part(part.as_slice());
                    self.buffer = remaining;
                    match parsed {
                        Ok(Some(chunk)) => {
                            return Ok(Some(chunk));
                        },
                        Ok(None) => {},
                        Err(e) => {
                            return Err(e);
                        },
                    }
                },
                _ => {
                    return Ok(None);
                },
            }
        }
    }
}

/// The views of the chunks of a batch.
pub open spec fn batch_view(chunks: Seq<(String, Vec<u8>)>) -> Seq<(Seq<char>, Seq<u8>)> {
    chunks.map_values(|c: (String, Vec<u8>)| (c.0@, c.1@))
}

/// The head of the part that carries the chunk `id` in a body with the
/// given boundary.
pub open spec fn part_head(boundary: Seq<char>, id: Seq<char>) -> Seq<char> {
    "--"@ + boundary + "\r\nContent-Disposition: form-data; name=\""@ + id
        + "\"\r\nContent-Type: application/octet-stream\r\n\r\n"@
}

/// The line that closes a body with the given boundary.
pub open spec fn closing_line(boundary: Seq<char>) -> Seq<char> {
    "--"@ + boundary + "--\r\n"@
}

/// The body of a batch upload: for each chunk a part named after its id
/// that holds its bytes, and the closing line.
pub open spec fn upload_body(boundary: Seq<char>, chunks: Seq<(Seq<char>, Seq<u8>)>) -> Seq<u8>
    decreases chunks.len(),
{
    if chunks.len() == 0 {
        vstd::utf8::encode_utf8(closing_line(boundary))
    } else {
        vstd::utf8::encode_utf8(part_head(boundary, chunks[0].0)) + chunks[0].1
            + vstd::utf8::encode_utf8("\r\n"@) + upload_body(boundary, chunks.drop_first())
    }
}

/// The body of a batch upload of `chunks` with the given boundary.
pub fn encode_batch(boundary: &str, chunks: &Vec<(String, Vec<u8>)>) -> (body: Vec<u8>)
    ensures
        body@ == upload_body(boundary@, batch_view(chunks@)),
{
    let mut body: Vec<u8> = Vec::new();
    let mut i: usize = 0;
    let ghost all = batch_view(chunks@);
    proof {
        assert(all.skip(0) =~= all);
        assert(body@ + upload_body(boundary@, all) =~= upload_body(boundary@, all));
    }
    while i < chunks.len()
        invariant
            i <= chunks@.len(),
            all == batch_view(chunks@),
            body@ + upload_body(boundary@, all.skip(i as int)) == upload_body(boundary@, all),
        decreases chunks@.len() - i,
    {
        let mut head = "--".to_string();
        head.append(boundary);
        head.append("\r\nContent-Disposition: form-data; name=\"");
        head.append(chunks[i].0.as_str());
        head.append("\"\r\nContent-Type: application/octet-stream\r\n\r\n");
        let ghost before = body@;
        body.extend_from_slice(head.as_str().as_bytes());
        body.extend_from_slice(chunks[i].1.as_slice());
        body.extend_from_slice("\r\n".as_bytes());
        proof {
            let rest = all.skip(i as int);
            assert(rest[0] == all[i as int]);
            assert(rest.drop_first() =~= all.skip(i + 1));
            assert(head@ == part_head(boundary@, rest[0].0));
            assert(body@ + upload_body(boundary@, all.skip(i + 1)) =~= before + upload_body(
                boundary@,
                rest,
            ));
        }
        i += 1;
    }
    let mut last = "--".to_string();
    last.append(boundary);
    last.append("--\r\n");
    body.extend_from_slice(last.as_str().as_bytes());
    proof {
        assert(all.skip(chunks@.len() as int).len() == 0);
    }
    body
}

} // verus!
