//! First occurrence of a byte pattern in a reply buffer.
//!
//! Every reply reassembler looks for markers (a frame header, a terminator,
//! a status character) in a buffer that grows between classifications. The
//! search is defined once here, together with the fact that makes
//! classification monotonic: a match found in a buffer is still the first
//! match after more bytes arrive.

use vstd::prelude::*;

verus! {

/// Whether `pat` occurs in `b` starting at `i`.
pub open spec fn spec_match_at(b: Seq<u8>, pat: Seq<u8>, i: int) -> bool {
    0 <= i && i + pat.len() <= b.len() && b.subrange(i, i + pat.len()) == pat
}

/// Position of the first occurrence of `pat` in `b` at or after `from`.
pub open spec fn spec_find(b: Seq<u8>, pat: Seq<u8>, from: int) -> Option<int>
    decreases b.len() - from,
{
    if pat.len() < 1 || from < 0 || from + pat.len() > b.len() {
        None
    } else if b.subrange(from, from + pat.len()) == pat {
        Some(from)
    } else {
        spec_find(b, pat, from + 1)
    }
}

/// What a successful search means: a match there, and none earlier.
pub proof fn lemma_find_some(b: Seq<u8>, pat: Seq<u8>, from: int, i: int)
    requires
        pat.len() >= 1,
        spec_find(b, pat, from) == Some(i),
    ensures
        spec_match_at(b, pat, i),
        from <= i,
        forall|j: int| from <= j < i ==> !spec_match_at(b, pat, j),
    decreases b.len() - from,
{
    if !(from < 0 || from + pat.len() > b.len()) && b.subrange(from, from + pat.len()) != pat {
        lemma_find_some(b, pat, from + 1, i);
    }
}

/// A match found in a buffer is still the first match in any extension of
/// that buffer.
pub proof fn lemma_find_prefix_stable(b1: Seq<u8>, b2: Seq<u8>, pat: Seq<u8>, from: int, i: int)
    requires
        pat.len() >= 1,
        b1.len() <= b2.len(),
        b2.subrange(0, b1.len() as int) == b1,
        spec_find(b1, pat, from) == Some(i),
    ensures
        spec_find(b2, pat, from) == Some(i),
    decreases b1.len() - from,
{
    assert(b1.subrange(from, from + pat.len()) =~= b2.subrange(from, from + pat.len()));
    if b1.subrange(from, from + pat.len()) != pat {
        lemma_find_prefix_stable(b1, b2, pat, from + 1, i);
    }
}

/// A match with no earlier match is what the search finds.
pub proof fn lemma_find_exact(b: Seq<u8>, pat: Seq<u8>, from: int, i: int)
    requires
        pat.len() >= 1,
        0 <= from <= i,
        spec_match_at(b, pat, i),
        forall|j: int| from <= j < i ==> !spec_match_at(b, pat, j),
    ensures
        spec_find(b, pat, from) == Some(i),
    decreases i - from,
{
    if from < i {
        lemma_find_exact(b, pat, from + 1, i);
        assert(!spec_match_at(b, pat, from));
        assert(from + pat.len() <= b.len());
        assert(b.subrange(from, from + pat.len()) != pat);
    } else {
        assert(b.subrange(i, i + pat.len()) == pat);
    }
}

/// Where no position matches, the search finds nothing.
pub proof fn lemma_find_absent(b: Seq<u8>, pat: Seq<u8>, from: int)
    requires
        forall|j: int| from <= j ==> !spec_match_at(b, pat, j),
    ensures
        spec_find(b, pat, from) is None,
    decreases b.len() - from,
{
    if !(pat.len() < 1 || from < 0 || from + pat.len() > b.len()) {
        assert(!spec_match_at(b, pat, from));
        assert(b.subrange(from, from + pat.len()) != pat);
        lemma_find_absent(b, pat, from + 1);
    }
}

/// Where some position at or after `from` matches, the search finds one.
pub proof fn lemma_find_present(b: Seq<u8>, pat: Seq<u8>, from: int, i: int)
    requires
        pat.len() >= 1,
        0 <= from <= i,
        spec_match_at(b, pat, i),
    ensures
        spec_find(b, pat, from) is Some,
    decreases i - from,
{
    if from < i && b.subrange(from, from + pat.len()) != pat {
        lemma_find_present(b, pat, from + 1, i);
    }
}

/// Finds the first occurrence of `pat` in `buf` at or after `from`.
pub fn find_sub(buf: &[u8], pat: &[u8], from: usize) -> (r: Option<usize>)
    requires
        pat.len() >= 1,
    ensures
        match r {
            Some(i) => spec_find(buf@, pat@, from as int) == Some(i as int),
            None => spec_find(buf@, pat@, from as int) is None,
        },
{
    if buf.len() < pat.len() {
        proof {
            lemma_find_no_room(buf@, pat@, from as int);
        }
        return None;
    }
    let last = buf.len() - pat.len();
    let mut i: usize = from;
    while i <= last
        invariant
            pat.len() >= 1,
            pat.len() <= buf.len(),
            last == buf.len() - pat.len(),
            spec_find(buf@, pat@, from as int) == spec_find(buf@, pat@, i as int),
        decreases last + 1 - i,
    {
        if match_at(buf, pat, i) {
            return Some(i);
        }
        proof {
            assert(spec_find(buf@, pat@, i as int) == spec_find(buf@, pat@, i + 1));
        }
        i = i + 1;
    }
    proof {
        lemma_find_no_room(buf@, pat@, i as int);
    }
    None
}

/// Whether `pat` occurs in `buf` at position `i`.
fn match_at(buf: &[u8], pat: &[u8], i: usize) -> (r: bool)
    requires
        i + pat.len() <= buf.len(),
    ensures
        r <==> spec_match_at(buf@, pat@, i as int),
{
    let mut j: usize = 0;
    while j < pat.len()
        invariant
            i + pat.len() <= buf.len(),
            j <= pat.len(),
            forall|k: int| 0 <= k < j ==> buf@[i + k] == pat@[k],
        decreases pat.len() - j,
    {
        if buf[i + j] != pat[j] {
            proof {
                assert(buf@.subrange(i as int, i + pat.len())[j as int] == buf@[i + j]);
            }
            return false;
        }
        j = j + 1;
    }
    proof {
        assert(buf@.subrange(i as int, i + pat.len()) =~= pat@);
    }
    true
}

/// A pattern longer than the rest of the buffer never matches.
proof fn lemma_find_no_room(b: Seq<u8>, pat: Seq<u8>, from: int)
    requires
        b.len() < pat.len() + from || from < 0,
    ensures
        spec_find(b, pat, from) is None,
    decreases b.len() - from,
{
}

} // verus!
