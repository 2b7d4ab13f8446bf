//! The token-bounded chunk iterator: walks a document's text and
//! yields byte ranges whose token count, as reported by the tokenizer,
//! stays within a limit. Cut positions always land on character
//! boundaries, and one byte (one character) is skipped between
//! consecutive chunks.
use tokenizers::Tokenizer;
use vstd::prelude::*;
use vstd::string::StringSliceAdditionalSpecFns;
use vstd::utf8::is_char_boundary;
use vstd::utf8::valid_utf8;

use crate::errors::EmbeddingError;
use crate::text::count_char_starts;
use crate::text::lemma_boundary_in_suffix;
use crate::text::lemma_gap_is_one_char;
use crate::text::lemma_next_boundary;
use crate::text::lemma_scalar_at;
use crate::text::next_boundary_at;
use crate::text::rfind_byte_in;
use crate::text::scalar_len_at;
use crate::text::snap_down;
use crate::text::snap_up;

verus! {

/// The tokenizer handle of the tokenizers crate, opaque to the
/// library: only its token counts are observed, through
/// [`get_token_count`].
#[verifier::external_type_specification]
#[verifier::external_body]
pub struct ExTokenizer(Tokenizer);

/// Relies on tokenizers::Tokenizer::encode (with special tokens) and
/// Encoding::len: the number of tokens the loaded tokenizer produces
/// for `input`. The count depends on the vocabulary that was loaded,
/// so nothing is assumed about the value.
#[verifier::external_body]
fn get_token_count(tokenizer: &Tokenizer, input: &str) -> Result<usize, EmbeddingError> {
    match tokenizer.encode(input, true) {
        Ok(encoding) => Ok(encoding.len()),
        Err(e) => Err(EmbeddingError::TokenizerError(e.to_string())),
    }
}

/// The slice of `s` between byte positions `start` and `end`, both of
/// which must be character boundaries.
fn substring<'b>(s: &'b str, start: usize, end: usize) -> (r: &'b str)
    requires
        start <= end,
        end <= s.spec_bytes().len(),
        is_char_boundary(s.spec_bytes(), start as int),
        is_char_boundary(s.spec_bytes(), end as int),
    ensures
        r.spec_bytes() == s.spec_bytes().subrange(start as int, end as int),
{
    proof {
        broadcast use vstd::utf8::encode_utf8_valid_utf8;

        lemma_boundary_in_suffix(s.spec_bytes(), start as int, end as int);
    }
    let (_, tail) = s.split_at(start);
    let (head, _) = tail.split_at(end - start);
    proof {
        assert(head.spec_bytes() =~= s.spec_bytes().subrange(start as int, end as int));
    }
    head
}

/// Byte length of the character starting at the boundary `i`.
fn scalar_len_exec(s: &str, i: usize) -> (r: usize)
    requires
        i < s.spec_bytes().len(),
        is_char_boundary(s.spec_bytes(), i as int),
    ensures
        r == scalar_len_at(s.spec_bytes(), i as int),
{
    proof {
        broadcast use vstd::utf8::encode_utf8_valid_utf8;

        vstd::utf8::valid_utf8_split(s.spec_bytes(), i as int);
        let suffix = s.spec_bytes().subrange(i as int, s.spec_bytes().len() as int);
        assert(suffix.len() > 0);
        assert(vstd::utf8::valid_first_scalar(suffix));
        assert(suffix[0] == s.spec_bytes()[i as int]);
    }
    let b = *vstd::slice::slice_index_get(s.as_bytes(), i);
    if b < 0x80 {
        1
    } else if b < 0xE0 {
        2
    } else if b < 0xF0 {
        3
    } else {
        4
    }
}

/// Where the cursor stands after a chunk ending at `e`: one byte past
/// the chunk, snapped forward to the next character boundary.
pub open spec fn next_cursor(bs: Seq<u8>, e: int) -> int {
    next_boundary_at(bs, e + 1)
}

/// Byte position `i` lies inside one of the ranges of `h`, or inside
/// the single character elided right after one of them.
pub open spec fn covered_or_elided(bs: Seq<u8>, h: Seq<(usize, usize)>, i: int) -> bool {
    ||| exists|j: int| 0 <= j < h.len() && (#[trigger] h[j]).0 <= i < h[j].1
    ||| exists|j: int| 0 <= j < h.len() && (#[trigger] h[j]).1 <= i < next_cursor(bs, h[j].1 as int)
}

/// Chooses where the chunk that starts at `start` ends. A tentative
/// window of four bytes per allowed token is measured with the
/// tokenizer and shrunk until the count fits `max_chunk_size`,
/// preferring a cut just after a period that sits between 11 and 50
/// characters before the mechanical cut. When even the collapsed
/// window measures over the limit, the smallest non-empty aligned
/// prefix is taken, so a chunk is always produced.
///
/// Returns the chunk's end position together with the last token count
/// the tokenizer reported: the count is at most `max_chunk_size`
/// unless the chunk is that smallest one-character prefix.
pub fn next_chunk_end(chunkable: &str, tokenizer: &Tokenizer, start: usize, max_chunk_size: usize) -> (r:
    Result<(usize, usize), EmbeddingError>)
    requires
        1 <= max_chunk_size <= usize::MAX / 4,
        start < chunkable.spec_bytes().len(),
        is_char_boundary(chunkable.spec_bytes(), start as int),
    ensures
        (r matches Ok(p) ==> ({
            let bs = chunkable.spec_bytes();
            &&& start < p.0 <= bs.len()
            &&& is_char_boundary(bs, p.0 as int)
            &&& (p.1 <= max_chunk_size || p.0 == start + scalar_len_at(bs, start as int))
        })),
{
    let ghost bs = chunkable.spec_bytes();
    proof {
        broadcast use vstd::utf8::encode_utf8_valid_utf8;

    }
    let n = chunkable.as_bytes().len();
    let starting_substr_size = max_chunk_size * 4;
    let mut substr_size = starting_substr_size;
    let cap = if substr_size >= n - start {
        n
    } else {
        start + substr_size
    };
    let mut end = snap_down(chunkable, start, cap);
    let mut token_count = match get_token_count(tokenizer, substring(chunkable, start, end)) {
        Ok(count) => count,
        Err(e) => {
            return Err(e);
        },
    };
    while token_count > max_chunk_size && substr_size > 0
        invariant
            valid_utf8(bs),
            bs == chunkable.spec_bytes(),
            n == bs.len(),
            start < n,
            is_char_boundary(bs, start as int),
            start <= end <= n,
            is_char_boundary(bs, end as int),
        decreases substr_size,
    {
        let cap_here = if substr_size >= n - start {
            n
        } else {
            start + substr_size
        };
        end = snap_down(chunkable, start, cap_here);
        match rfind_byte_in(chunkable, start, end, 0x2e) {
            Some(index) => {
                let max_distance: usize = 50;
                let char_distance = count_char_starts(chunkable, index + 1, end);
                if char_distance <= max_distance && char_distance > 10 {
                    proof {
                        vstd::utf8::is_char_boundary_iff_not_is_continuation_byte(bs, index as int);
                        lemma_scalar_at(bs, index as int);
                    }
                    end = index + 1;
                }
            },
            None => {},
        }
        token_count = match get_token_count(tokenizer, substring(chunkable, start, end)) {
            Ok(count) => count,
            Err(e) => {
                return Err(e);
            },
        };
        let distance_from_limit = token_count.saturating_sub(max_chunk_size);
        let reduction = if distance_from_limit >= 1 {
            distance_from_limit
        } else {
            1
        };
        substr_size = substr_size.saturating_sub(reduction);
    }
    if token_count > max_chunk_size || end <= start {
        proof {
            lemma_scalar_at(bs, start as int);
        }
        end = start + scalar_len_exec(chunkable, start);
    }
    Ok((end, token_count))
}

/// Lazily yields the token-bounded chunks of one document's text.
pub struct StringChunkIterator<'a> {
    chunkable: &'a str,
    max_chunk_size: usize,
    start: usize,
    history: Ghost<Seq<(usize, usize)>>,
}

impl<'a> StringChunkIterator<'a> {
    /// The text being chunked, as its UTF-8 bytes.
    pub closed spec fn bytes(self) -> Seq<u8> {
        self.chunkable.spec_bytes()
    }

    /// The token limit each chunk must respect.
    pub closed spec fn limit(self) -> int {
        self.max_chunk_size as int
    }

    /// The byte position the next chunk would start at.
    pub closed spec fn cursor(self) -> int {
        self.start as int
    }

    /// The byte ranges yielded so far.
    pub closed spec fn chunks(self) -> Seq<(usize, usize)> {
        self.history@
    }

    /// The ranges yielded so far tile the text from its beginning:
    /// they are non-empty, boundary-aligned, in order, each one
    /// starting exactly one elided character after its predecessor,
    /// and together with those elisions they cover everything below
    /// the cursor.
    pub open spec fn tiled(self) -> bool {
        let bs = self.bytes();
        let h = self.chunks();
        &&& (h.len() == 0 ==> self.cursor() == 0)
        &&& (h.len() > 0 ==> h[0].0 == 0 && self.cursor() == next_cursor(bs, h.last().1 as int))
        &&& (forall|j: int|
            0 <= j < h.len() ==> ((#[trigger] h[j]).0 < h[j].1 && h[j].1 <= bs.len()
                && is_char_boundary(bs, h[j].0 as int) && is_char_boundary(bs, h[j].1 as int)))
        &&& (forall|j: int|
            0 <= j < h.len() - 1 ==> (#[trigger] h[j + 1]).0 == next_cursor(bs, h[j].1 as int))
        &&& (forall|i: int|
            0 <= i < self.cursor() && i < bs.len() ==> covered_or_elided(bs, h, i))
    }

    /// The iterator's invariant.
    pub open spec fn wf(self) -> bool {
        &&& 1 <= self.limit() <= usize::MAX / 4
        &&& self.bytes().len() < usize::MAX
        &&& valid_utf8(self.bytes())
        &&& (self.cursor() <= self.bytes().len() ==> is_char_boundary(self.bytes(), self.cursor()))
        &&& self.tiled()
    }

    /// A fresh iterator over `chunkable` with the given token limit.
    pub fn new(chunkable: &'a str, max_chunk_size: usize) -> (r: Self)
        requires
            1 <= max_chunk_size <= usize::MAX / 4,
            chunkable.spec_bytes().len() < usize::MAX,
        ensures
            r.wf(),
            r.bytes() == chunkable.spec_bytes(),
            r.limit() == max_chunk_size,
            r.cursor() == 0,
            r.chunks().len() == 0,
    {
        proof {
            broadcast use vstd::utf8::encode_utf8_valid_utf8;

        }
        StringChunkIterator { chunkable, max_chunk_size, start: 0, history: Ghost(Seq::empty()) }
    }

    /// The next chunk as `(slice, start, end)`, where the half-open
    /// byte range `[start, end)` of the text holds the slice; `None`
    /// once the cursor has passed the end. On a yield the cursor moves
    /// one byte past the chunk and snaps forward onto the next
    /// character boundary, so exactly one character is elided between
    /// consecutive chunks.
    pub fn get_next_chunk(&mut self, tokenizer: &Tokenizer) -> (r: Option<
        Result<(&'a str, usize, usize), EmbeddingError>,
    >)
        requires
            old(self).wf(),
        ensures
            final(self).wf(),
            final(self).bytes() == old(self).bytes(),
            final(self).limit() == old(self).limit(),
            old(self).cursor() >= old(self).bytes().len() ==> (r is None && *final(self) == *old(
                self,
            )),
            old(self).cursor() < old(self).bytes().len() ==> r is Some,
            (r matches Some(Err(_)) ==> *final(self) == *old(self)),
            (r matches Some(Ok(c)) ==> ({
                let bs = old(self).bytes();
                &&& c.1 == old(self).cursor()
                &&& c.1 < c.2 <= bs.len()
                &&& is_char_boundary(bs, c.1 as int)
                &&& is_char_boundary(bs, c.2 as int)
                &&& c.0.spec_bytes() == bs.subrange(c.1 as int, c.2 as int)
                &&& final(self).chunks() == old(self).chunks().push((c.1, c.2))
                &&& final(self).cursor() == next_cursor(bs, c.2 as int)
            })),
    {
        let ghost bs = self.chunkable.spec_bytes();
        let n = self.chunkable.as_bytes().len();
        if self.start >= n {
            return None;
        }
        let start = self.start;
        let end = match next_chunk_end(self.chunkable, tokenizer, start, self.max_chunk_size) {
            Ok(p) => p.0,
            Err(e) => {
                return Some(Err(e));
            },
        };
        let sub = substring(self.chunkable, start, end);
        let new_start = snap_up(self.chunkable, end + 1);
        self.start = new_start;
        proof {
            self.history@ = self.history@.push((start, end));
        }
        proof {
            if new_start <= bs.len() {
                lemma_next_boundary(bs, end + 1);
            }
            let h_new = self.history@;
            let h_old = old(self).history@;
            assert(h_new == h_old.push((start, end)));
            assert(h_new.last() == (start, end));
            assert forall|i: int|
                0 <= i < self.start as int && i < bs.len() implies covered_or_elided(
                bs,
                h_new,
                i,
            ) by {
                if i < start {
                    assert(covered_or_elided(bs, h_old, i));
                    forall_covered_push(bs, h_old, h_new, i);
                } else if i < end {
                    assert((h_new[h_new.len() - 1]).0 <= i < h_new[h_new.len() - 1].1);
                } else {
                    assert((h_new[h_new.len() - 1]).1 <= i < next_cursor(bs, end as int));
                }
            }
        }
        Some(Ok((sub, start, end)))
    }
}

/// Pushing a range keeps every prior position covered.
proof fn forall_covered_push(bs: Seq<u8>, h: Seq<(usize, usize)>, h2: Seq<(usize, usize)>, i: int)
    requires
        covered_or_elided(bs, h, i),
        h2.len() == h.len() + 1,
        forall|j: int| 0 <= j < h.len() ==> h2[j] == h[j],
    ensures
        covered_or_elided(bs, h2, i),
{
    if exists|j: int| 0 <= j < h.len() && (#[trigger] h[j]).0 <= i < h[j].1 {
        let j = choose|j: int| 0 <= j < h.len() && (#[trigger] h[j]).0 <= i < h[j].1;
        assert((h2[j]).0 <= i < h2[j].1);
    } else {
        let j = choose|j: int|
            0 <= j < h.len() && (#[trigger] h[j]).1 <= i < next_cursor(bs, h[j].1 as int);
        assert((h2[j]).1 <= i < next_cursor(bs, h2[j].1 as int));
    }
}

/// Once the iterator is exhausted, its chunks tile the whole text:
/// every byte lies in a yielded range or in the single character
/// elided after one of them, all endpoints are character boundaries,
/// and each elision is exactly one character of at most four bytes.
pub proof fn lemma_chunks_cover(it: StringChunkIterator)
    requires
        it.wf(),
        it.cursor() >= it.bytes().len(),
    ensures
        forall|i: int|
            0 <= i < it.bytes().len() ==> covered_or_elided(it.bytes(), it.chunks(), i),
        forall|j: int|
            0 <= j < it.chunks().len() ==> ((#[trigger] it.chunks()[j]).0 < it.chunks()[j].1
                && is_char_boundary(it.bytes(), it.chunks()[j].0 as int) && is_char_boundary(
                it.bytes(),
                it.chunks()[j].1 as int,
            )),
        forall|j: int|
            0 <= j < it.chunks().len() && (#[trigger] it.chunks()[j]).1 < it.bytes().len()
                ==> next_cursor(it.bytes(), it.chunks()[j].1 as int) == it.chunks()[j].1
                + scalar_len_at(it.bytes(), it.chunks()[j].1 as int) && 1 <= scalar_len_at(
                it.bytes(),
                it.chunks()[j].1 as int,
            ) <= 4,
{
    assert forall|j: int|
        0 <= j < it.chunks().len() && (#[trigger] it.chunks()[j]).1
            < it.bytes().len() implies next_cursor(it.bytes(), it.chunks()[j].1 as int)
        == it.chunks()[j].1 + scalar_len_at(it.bytes(), it.chunks()[j].1 as int) && 1
        <= scalar_len_at(it.bytes(), it.chunks()[j].1 as int) <= 4 by {
        lemma_scalar_at(it.bytes(), it.chunks()[j].1 as int);
        lemma_gap_is_one_char(it.bytes(), it.chunks()[j].1 as int);
    }
}

} // verus!
