//! Byte-level reasoning about UTF-8 text: character boundaries, the
//! snapping of cut positions onto them, and small scanning helpers
//! that the chunker and the error classification build on.
use vstd::prelude::*;
use vstd::slice::slice_index_get;
use vstd::string::StringSliceAdditionalSpecFns;
use vstd::utf8::*;

verus! {

/// Length in bytes of the character whose encoding starts at `i`.
pub open spec fn scalar_len_at(bs: Seq<u8>, i: int) -> int {
    length_of_first_scalar(bs.subrange(i, bs.len() as int))
}

/// The first character boundary at or after `p`; positions past the
/// end of the sequence stay put.
pub open spec fn next_boundary_at(bs: Seq<u8>, p: int) -> int
    decreases bs.len() - p,
{
    if p >= bs.len() || is_char_boundary(bs, p) {
        p
    } else {
        next_boundary_at(bs, p + 1)
    }
}

/// How many character boundaries lie in `[lo, hi)`; for text this is
/// the number of characters that start there.
pub open spec fn boundaries_between(bs: Seq<u8>, lo: int, hi: int) -> int
    decreases hi - lo,
{
    if lo >= hi {
        0
    } else {
        boundaries_between(bs, lo, hi - 1) + if is_char_boundary(bs, hi - 1) {
            1int
        } else {
            0int
        }
    }
}

/// `n` occurs as a contiguous subsequence of `h`.
pub open spec fn spec_contains(h: Seq<u8>, n: Seq<u8>) -> bool {
    exists|i: int| 0 <= i <= h.len() - n.len() && #[trigger] h.subrange(i, i + n.len()) == n
}

/// At a character boundary inside valid UTF-8, the byte there leads a
/// character of one to four bytes that fits in the sequence; the very
/// next boundary sits at its end, and a byte below 0x80 always stands
/// for a one-byte character.
pub proof fn lemma_scalar_at(bs: Seq<u8>, i: int)
    requires
        valid_utf8(bs),
        0 <= i < bs.len(),
        is_char_boundary(bs, i),
    ensures
        1 <= scalar_len_at(bs, i) <= 4,
        i + scalar_len_at(bs, i) <= bs.len(),
        is_char_boundary(bs, i + scalar_len_at(bs, i)),
        forall|j: int| i < j < i + scalar_len_at(bs, i) ==> !is_char_boundary(bs, j),
        bs[i] < 0x80 ==> scalar_len_at(bs, i) == 1,
{
    broadcast use vstd::seq::group_seq_axioms;

    valid_utf8_split(bs, i);
    let suffix = bs.subrange(i, bs.len() as int);
    assert(valid_utf8(suffix));
    assert(suffix.len() > 0);
    assert(valid_first_scalar(suffix));
    let k = length_of_first_scalar(suffix);
    assert(1 <= k <= 4);
    assert(suffix.len() >= k) by {
        assert(valid_leading_and_continuation_bytes_first_codepoint(suffix));
    }
    assert(i + k <= bs.len());
    assert forall|j: int| i < j < i + k implies !is_char_boundary(bs, j) by {
        assert(is_continuation_byte(suffix[j - i])) by {
            assert(valid_leading_and_continuation_bytes_first_codepoint(suffix));
        }
        assert(bs[j] == suffix[j - i]);
        is_char_boundary_iff_not_is_continuation_byte(bs, j);
    }
    if i + k == bs.len() {
        is_char_boundary_start_end_of_seq(bs);
    } else {
        let rest = pop_first_scalar(suffix);
        assert(valid_utf8(rest));
        assert(rest.len() > 0);
        assert(valid_first_scalar(rest));
        assert(rest[0] == suffix[k]);
        assert(suffix[k] == bs[i + k]);
        assert(!is_continuation_byte(bs[i + k])) by {
            assert(valid_leading_and_continuation_bytes_first_codepoint(rest));
        }
        is_char_boundary_iff_not_is_continuation_byte(bs, i + k);
    }
    if bs[i] < 0x80 {
        assert(is_leading_byte_width_1(suffix[0]));
    }
}

/// The next boundary at or after `p` is indeed a boundary, lies no
/// further than the end, and nothing before it is one.
pub proof fn lemma_next_boundary(bs: Seq<u8>, p: int)
    requires
        valid_utf8(bs),
        0 <= p <= bs.len(),
    ensures
        p <= next_boundary_at(bs, p) <= bs.len(),
        is_char_boundary(bs, next_boundary_at(bs, p)),
        forall|j: int| p <= j < next_boundary_at(bs, p) ==> !is_char_boundary(bs, j),
    decreases bs.len() - p,
{
    if p >= bs.len() {
        is_char_boundary_start_end_of_seq(bs);
    } else if is_char_boundary(bs, p) {
    } else {
        lemma_next_boundary(bs, p + 1);
    }
}

/// A position with no boundaries before it up to a boundary `m` snaps
/// forward exactly to `m`.
pub proof fn lemma_next_boundary_unique(bs: Seq<u8>, p: int, m: int)
    requires
        valid_utf8(bs),
        0 <= p <= m <= bs.len(),
        is_char_boundary(bs, m),
        forall|j: int| p <= j < m ==> !is_char_boundary(bs, j),
    ensures
        next_boundary_at(bs, p) == m,
    decreases m - p,
{
    if p == m {
    } else {
        lemma_next_boundary_unique(bs, p + 1, m);
    }
}

/// Advancing one past a boundary `e` and snapping forward skips
/// exactly the one character that starts at `e`.
pub proof fn lemma_gap_is_one_char(bs: Seq<u8>, e: int)
    requires
        valid_utf8(bs),
        0 <= e < bs.len(),
        is_char_boundary(bs, e),
    ensures
        next_boundary_at(bs, e + 1) == e + scalar_len_at(bs, e),
{
    lemma_scalar_at(bs, e);
    lemma_next_boundary_unique(bs, e + 1, e + scalar_len_at(bs, e));
}

/// A boundary of the whole sequence is a boundary of the suffix that
/// starts at an earlier boundary.
pub proof fn lemma_boundary_in_suffix(bs: Seq<u8>, start: int, e: int)
    requires
        valid_utf8(bs),
        0 <= start <= e <= bs.len(),
        is_char_boundary(bs, start),
        is_char_boundary(bs, e),
    ensures
        is_char_boundary(bs.subrange(start, bs.len() as int), e - start),
{
    valid_utf8_split(bs, start);
    let suffix = bs.subrange(start, bs.len() as int);
    if e == start {
    } else if e == bs.len() {
        is_char_boundary_start_end_of_seq(suffix);
    } else {
        is_char_boundary_iff_not_is_continuation_byte(bs, e);
        assert(suffix[e - start] == bs[e]);
        is_char_boundary_iff_not_is_continuation_byte(suffix, e - start);
    }
}

/// Largest character boundary in `[lo, end]`, found walking down from
/// `end`.
pub fn snap_down(s: &str, lo: usize, end: usize) -> (r: usize)
    requires
        lo <= end,
        end <= s.spec_bytes().len(),
        is_char_boundary(s.spec_bytes(), lo as int),
    ensures
        lo <= r <= end,
        is_char_boundary(s.spec_bytes(), r as int),
        forall|j: int| r < j <= end ==> !is_char_boundary(s.spec_bytes(), j),
{
    let mut e = end;
    while !s.is_char_boundary(e)
        invariant
            lo <= e <= end <= s.spec_bytes().len(),
            is_char_boundary(s.spec_bytes(), lo as int),
            forall|j: int| e < j <= end ==> !is_char_boundary(s.spec_bytes(), j),
        decreases e,
    {
        e = e - 1;
    }
    e
}

/// `p` snapped forward to the next character boundary.
pub fn snap_up(s: &str, p: usize) -> (r: usize)
    ensures
        r == next_boundary_at(s.spec_bytes(), p as int),
        p <= r,
{
    let n = s.as_bytes().len();
    let mut q = p;
    while q < n && !s.is_char_boundary(q)
        invariant
            p <= q,
            n == s.spec_bytes().len(),
            next_boundary_at(s.spec_bytes(), p as int) == next_boundary_at(
                s.spec_bytes(),
                q as int,
            ),
        decreases n - q,
    {
        q = q + 1;
    }
    q
}

/// Index of the last occurrence of `target` in `s`'s bytes within
/// `[lo, hi)`, if any.
pub fn rfind_byte_in(s: &str, lo: usize, hi: usize, target: u8) -> (r: Option<usize>)
    requires
        lo <= hi <= s.spec_bytes().len(),
    ensures
        (r matches Some(i) ==> lo <= i < hi && s.spec_bytes()[i as int] == target && (forall|
            j: int,
        |
            i < j < hi ==> s.spec_bytes()[j] != target)),
        r is None ==> forall|j: int| lo <= j < hi ==> s.spec_bytes()[j] != target,
{
    let bytes = s.as_bytes();
    let mut k = hi;
    while k > lo
        invariant
            lo <= k <= hi <= bytes@.len(),
            bytes@ == s.spec_bytes(),
            forall|j: int| k <= j < hi ==> s.spec_bytes()[j] != target,
        decreases k,
    {
        let b = *slice_index_get(bytes, k - 1);
        if b == target {
            return Some(k - 1);
        }
        k = k - 1;
    }
    None
}

/// Number of characters that start within `[lo, hi)`.
pub fn count_char_starts(s: &str, lo: usize, hi: usize) -> (r: usize)
    requires
        lo <= hi <= s.spec_bytes().len(),
    ensures
        r == boundaries_between(s.spec_bytes(), lo as int, hi as int),
{
    let mut count: usize = 0;
    let mut j = lo;
    while j < hi
        invariant
            lo <= j <= hi <= s.spec_bytes().len(),
            count == boundaries_between(s.spec_bytes(), lo as int, j as int),
            count <= j - lo,
        decreases hi - j,
    {
        if s.is_char_boundary(j) {
            count = count + 1;
        }
        j = j + 1;
        assert(boundaries_between(s.spec_bytes(), lo as int, j as int) == boundaries_between(
            s.spec_bytes(),
            lo as int,
            j - 1,
        ) + if is_char_boundary(s.spec_bytes(), j - 1) {
            1int
        } else {
            0int
        });
    }
    count
}

/// True when `a` and `b` are the same text: equal bytes of valid
/// UTF-8 decode to equal characters.
pub fn str_eq(a: &str, b: &str) -> (r: bool)
    ensures
        r == (a@ == b@),
{
    let ab = a.as_bytes();
    let bb = b.as_bytes();
    proof {
        broadcast use vstd::utf8::encode_utf8_decode_utf8;

        assert(decode_utf8(encode_utf8(a@)) == a@);
        assert(decode_utf8(encode_utf8(b@)) == b@);
    }
    if ab.len() != bb.len() {
        return false;
    }
    let mut i: usize = 0;
    while i < ab.len()
        invariant
            0 <= i <= ab@.len(),
            ab@.len() == bb@.len(),
            ab@ == a.spec_bytes(),
            bb@ == b.spec_bytes(),
            forall|j: int| 0 <= j < i ==> ab@[j] == bb@[j],
        decreases ab@.len() - i,
    {
        if *slice_index_get(ab, i) != *slice_index_get(bb, i) {
            assert(a.spec_bytes() != b.spec_bytes());
            return false;
        }
        i = i + 1;
    }
    proof {
        assert(a.spec_bytes() =~= b.spec_bytes());
        broadcast use vstd::utf8::encode_utf8_decode_utf8;

        assert(decode_utf8(encode_utf8(a@)) == a@);
        assert(decode_utf8(encode_utf8(b@)) == b@);
    }
    true
}

/// True when `s`'s bytes begin with those of `prefix`.
pub fn str_starts_with(s: &str, prefix: &str) -> (r: bool)
    ensures
        r == (s.spec_bytes().len() >= prefix.spec_bytes().len() && s.spec_bytes().subrange(
            0,
            prefix.spec_bytes().len() as int,
        ) == prefix.spec_bytes()),
{
    let sb = s.as_bytes();
    let pb = prefix.as_bytes();
    if sb.len() < pb.len() {
        return false;
    }
    let mut i: usize = 0;
    while i < pb.len()
        invariant
            0 <= i <= pb@.len() <= sb@.len(),
            sb@ == s.spec_bytes(),
            pb@ == prefix.spec_bytes(),
            forall|j: int| 0 <= j < i ==> sb@[j] == pb@[j],
        decreases pb@.len() - i,
    {
        if *slice_index_get(sb, i) != *slice_index_get(pb, i) {
            assert(s.spec_bytes().subrange(0, prefix.spec_bytes().len() as int)[i as int]
                != prefix.spec_bytes()[i as int]);
            return false;
        }
        i = i + 1;
    }
    assert(s.spec_bytes().subrange(0, prefix.spec_bytes().len() as int) =~= prefix.spec_bytes());
    true
}

/// True when `needle`'s bytes occur contiguously in `s`'s bytes.
pub fn str_contains(s: &str, needle: &str) -> (r: bool)
    ensures
        r == spec_contains(s.spec_bytes(), needle.spec_bytes()),
{
    let sb = s.as_bytes();
    let nb = needle.as_bytes();
    if nb.len() > sb.len() {
        assert(!spec_contains(s.spec_bytes(), needle.spec_bytes()));
        return false;
    }
    let mut start: usize = 0;
    while start <= sb.len() - nb.len()
        invariant
            0 <= start <= sb@.len() - nb@.len() + 1,
            nb@.len() <= sb@.len(),
            sb@ == s.spec_bytes(),
            nb@ == needle.spec_bytes(),
            forall|i: int|
                0 <= i < start ==> #[trigger] sb@.subrange(i, i + nb@.len()) != nb@,
        decreases sb@.len() - start,
    {
        let mut i: usize = 0;
        let mut matched = true;
        let ghost mut bad: int = 0;
        while matched && i < nb.len()
            invariant
                0 <= i <= nb@.len(),
                start + nb@.len() <= sb@.len(),
                sb@.len() <= usize::MAX,
                sb@ == s.spec_bytes(),
                nb@ == needle.spec_bytes(),
                matched ==> forall|j: int| 0 <= j < i ==> sb@[start + j] == nb@[j],
                !matched ==> 0 <= bad < nb@.len() && sb@[start + bad] != nb@[bad],
            decreases nb@.len() - i, (if matched {
                1int
            } else {
                0int
            }),
        {
            if *slice_index_get(sb, start + i) != *slice_index_get(nb, i) {
                proof {
                    bad = i as int;
                }
                matched = false;
            } else {
                i = i + 1;
            }
        }
        if matched {
            assert(sb@.subrange(start as int, start + nb@.len()) =~= nb@);
            return true;
        }
        assert(sb@.subrange(start as int, start + nb@.len())[bad] == sb@[start + bad]);
        assert(sb@.subrange(start as int, start + nb@.len()) != nb@);
        start = start + 1;
    }
    false
}

} // verus!
