//! Locating the first difference between two equal-length byte chunks.
use vstd::prelude::*;

verus! {

/// Number of bytes tested together by the bulk equality test.
pub const LANE_WIDTH: usize = 32;

/// `a` and `b` agree on every position below `n`.
pub open spec fn agree_below(a: Seq<u8>, b: Seq<u8>, n: int) -> bool {
    forall|j: int| 0 <= j < n ==> a[j] == b[j]
}

/// `i` is the lowest position at which `a` and `b` hold different bytes.
pub open spec fn is_first_difference(a: Seq<u8>, b: Seq<u8>, i: int) -> bool {
    &&& 0 <= i < a.len()
    &&& i < b.len()
    &&& a[i] != b[i]
    &&& agree_below(a, b, i)
}

/// The lowest differing position of `a` and `b` (meaningful when one exists).
pub open spec fn first_difference(a: Seq<u8>, b: Seq<u8>) -> int {
    choose|i: int| is_first_difference(a, b, i)
}

/// The lowest differing position is unique, so `first_difference` names it.
pub proof fn lemma_first_difference_unique(a: Seq<u8>, b: Seq<u8>, i: int)
    requires
        is_first_difference(a, b, i),
    ensures
        first_difference(a, b) == i,
{
    let k = first_difference(a, b);
    assert(is_first_difference(a, b, k));
    if k < i {
        assert(a[k] == b[k]);
    } else if i < k {
        assert(a[i] == b[i]);
    }
}

/// Two sequences of equal length are equal exactly when no position differs.
pub proof fn lemma_equal_or_first_difference(a: Seq<u8>, b: Seq<u8>)
    requires
        a.len() == b.len(),
    ensures
        a == b <==> agree_below(a, b, a.len() as int),
        a != b ==> is_first_difference(a, b, first_difference(a, b)),
        a != b ==> first_difference(a, b) < a.len(),
{
    if agree_below(a, b, a.len() as int) {
        assert(a =~= b);
    }
    if a != b {
        let w = choose|j: int| 0 <= j < a.len() && a[j] != b[j];
        lemma_lowest_difference_exists(a, b, w);
    }
}

proof fn lemma_lowest_difference_exists(a: Seq<u8>, b: Seq<u8>, w: int)
    requires
        0 <= w < a.len(),
        w < b.len(),
        a[w] != b[w],
    ensures
        is_first_difference(a, b, first_difference(a, b)),
    decreases w,
{
    if agree_below(a, b, w) {
        lemma_first_difference_unique(a, b, w);
    } else {
        let v = choose|j: int| 0 <= j < w && a[j] != b[j];
        lemma_lowest_difference_exists(a, b, v);
    }
}

/// One step of the lane test: folding the difference of a byte pair into an
/// accumulator keeps it zero exactly when it was zero and the bytes agree.
proof fn lemma_fold_difference(acc: u8, x: u8, y: u8)
    ensures
        (acc | (x ^ y)) == 0 <==> (acc == 0 && x == y),
{
    assert((acc | (x ^ y)) == 0 <==> (acc == 0 && x == y)) by (bit_vector);
}

/// Whether the `LANE_WIDTH` bytes of `a` and `b` starting at `start` are all
/// equal. Every byte pair is folded into one accumulator, with no early exit.
fn lane_equal(a: &[u8], b: &[u8], start: usize) -> (r: bool)
    requires
        start + LANE_WIDTH <= a.len(),
        a@.len() == b@.len(),
    ensures
        r == agree_between(a@, b@, start as int, start + LANE_WIDTH),
{
    let mut acc: u8 = 0;
    let mut k: usize = 0;
    while k < LANE_WIDTH
        invariant
            k <= LANE_WIDTH,
            start + LANE_WIDTH <= a.len(),
            a@.len() == b@.len(),
            (acc == 0) == agree_between(a@, b@, start as int, start + k),
        decreases LANE_WIDTH - k,
    {
        let x = a[start + k];
        let y = b[start + k];
        proof {
            lemma_fold_difference(acc, x, y);
        }
        acc = acc | (x ^ y);
        k = k + 1;
    }
    acc == 0
}

/// `a` and `b` agree on every position in `lo..hi`.
pub open spec fn agree_between(a: Seq<u8>, b: Seq<u8>, lo: int, hi: int) -> bool {
    forall|j: int| lo <= j < hi ==> a[j] == b[j]
}

/// Scans `lo..hi` byte by byte for the first position where `a` and `b` differ.
fn scan_range(a: &[u8], b: &[u8], lo: usize, hi: usize) -> (r: Option<usize>)
    requires
        lo <= hi <= a@.len(),
        a@.len() == b@.len(),
    ensures
        match r {
            Some(i) => lo <= i < hi && a@[i as int] != b@[i as int] && agree_between(
                a@,
                b@,
                lo as int,
                i as int,
            ),
            None => agree_between(a@, b@, lo as int, hi as int),
        },
{
    let mut j: usize = lo;
    while j < hi
        invariant
            lo <= j <= hi <= a@.len(),
            a@.len() == b@.len(),
            agree_between(a@, b@, lo as int, j as int),
        decreases hi - j,
    {
        if a[j] != b[j] {
            return Some(j);
        }
        j = j + 1;
    }
    None
}

/// Finds the first position at which two equal-length chunks differ.
///
/// Full lanes of `LANE_WIDTH` bytes are tested in bulk; only a lane that fails
/// the test is scanned byte by byte, and so is the tail shorter than a lane.
/// Returns `None` when the chunks are equal.
pub fn compare_buffers_simd(buf1: &[u8], buf2: &[u8]) -> (r: Option<usize>)
    requires
        buf1@.len() == buf2@.len(),
    ensures
        match r {
            Some(i) => is_first_difference(buf1@, buf2@, i as int),
            None => buf1@ == buf2@,
        },
{
    let len = buf1.len();
    let mut i: usize = 0;
    while LANE_WIDTH <= len - i
        invariant
            i <= len,
            len == buf1@.len(),
            buf1@.len() == buf2@.len(),
            agree_below(buf1@, buf2@, i as int),
        decreases len - i,
    {
        if !lane_equal(buf1, buf2, i) {
            return scan_range(buf1, buf2, i, i + LANE_WIDTH);
        }
        i = i + LANE_WIDTH;
    }
    let tail = scan_range(buf1, buf2, i, len);
    match tail {
        Some(j) => Some(j),
        None => {
            assert(buf1@ =~= buf2@);
            None
        },
    }
}

} // verus!
