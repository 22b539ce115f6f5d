//! General facts about the outcome of comparing two streams.
use vstd::prelude::*;

use crate::chunk::{first_difference, is_first_difference, lemma_equal_or_first_difference};
use crate::chunk::lemma_first_difference_unique;
use crate::session::{chunk_outcome, contents_outcome, next_chunk, stream_outcome, Outcome, Side};

verus! {

/// The same outcome seen with the two streams exchanged.
pub open spec fn mirrored(o: Outcome) -> Outcome {
    match o {
        Outcome::Identical => Outcome::Identical,
        Outcome::Differ { offset, byte_a, byte_b } => Outcome::Differ {
            offset,
            byte_a: byte_b,
            byte_b: byte_a,
        },
        Outcome::LengthMismatch { shorter } => Outcome::LengthMismatch {
            shorter: match shorter {
                Side::First => Side::Second,
                Side::Second => Side::First,
            },
        },
    }
}

proof fn lemma_self_from(s: Seq<u8>, cap: nat, offset: int)
    requires
        cap > 0,
    ensures
        stream_outcome(s, s, cap, offset) == Outcome::Identical,
    decreases s.len(),
{
    let c = next_chunk(s, cap);
    if c.len() > 0 {
        lemma_self_from(s.skip(c.len() as int), cap, offset + c.len());
    }
}

/// A stream compared with an identical copy of itself is reported identical.
pub proof fn law_self_comparison_identical(s: Seq<u8>, cap: nat)
    requires
        cap > 0,
    ensures
        contents_outcome(s, s, cap) == Outcome::Identical,
{
    lemma_self_from(s, cap, 0);
}

proof fn lemma_first_difference_from(s: Seq<u8>, t: Seq<u8>, cap: nat, offset: int)
    requires
        cap > 0,
        s.len() == t.len(),
        s != t,
        0 <= offset,
        offset + s.len() <= u64::MAX,
    ensures
        ({
            let i = first_difference(s, t);
            stream_outcome(s, t, cap, offset) == Outcome::Differ {
                offset: (offset + i) as u64,
                byte_a: s[i],
                byte_b: t[i],
            }
        }),
    decreases s.len(),
{
    lemma_equal_or_first_difference(s, t);
    let i = first_difference(s, t);
    let ca = next_chunk(s, cap);
    let cb = next_chunk(t, cap);
    let k = ca.len() as int;
    lemma_equal_or_first_difference(ca, cb);
    if ca != cb {
        let j = first_difference(ca, cb);
        assert(ca[j] == s[j] && cb[j] == t[j]);
        assert forall|m: int| 0 <= m < j implies s[m] == t[m] by {
            assert(ca[m] == cb[m]);
        }
        assert(is_first_difference(s, t, j));
        lemma_first_difference_unique(s, t, j);
    } else {
        let s2 = s.skip(k);
        let t2 = t.skip(k);
        if s2 == t2 {
            assert forall|m: int| 0 <= m < s.len() implies s[m] == t[m] by {
                if m < k {
                    assert(ca[m] == cb[m]);
                } else {
                    assert(s2[m - k] == t2[m - k]);
                }
            }
            assert(s =~= t);
        }
        lemma_first_difference_from(s2, t2, cap, offset + k);
        lemma_equal_or_first_difference(s2, t2);
        let j = first_difference(s2, t2);
        assert forall|m: int| 0 <= m < j + k implies s[m] == t[m] by {
            if m < k {
                assert(ca[m] == cb[m]);
            } else {
                assert(s2[m - k] == t2[m - k]);
            }
        }
        assert(is_first_difference(s, t, j + k));
        lemma_first_difference_unique(s, t, j + k);
    }
}

/// Two different streams of equal length are reported as differing at the
/// lowest position where their bytes differ, with the byte of each there.
pub proof fn law_first_difference_reported(s: Seq<u8>, t: Seq<u8>, cap: nat)
    requires
        cap > 0,
        s.len() == t.len(),
        s != t,
        s.len() <= u64::MAX,
    ensures
        is_first_difference(s, t, first_difference(s, t)),
        ({
            let i = first_difference(s, t);
            contents_outcome(s, t, cap) == Outcome::Differ {
                offset: i as u64,
                byte_a: s[i],
                byte_b: t[i],
            }
        }),
{
    lemma_equal_or_first_difference(s, t);
    lemma_first_difference_from(s, t, cap, 0);
}

proof fn lemma_prefix_from(s: Seq<u8>, t: Seq<u8>, cap: nat, offset: int)
    requires
        cap > 0,
        s.len() < t.len(),
        s == t.take(s.len() as int),
    ensures
        stream_outcome(s, t, cap, offset) == (Outcome::LengthMismatch { shorter: Side::First }),
    decreases s.len(),
{
    let ca = next_chunk(s, cap);
    let cb = next_chunk(t, cap);
    let k = ca.len() as int;
    if ca.len() == cb.len() && ca.len() > 0 {
        assert(ca =~= cb);
        let s2 = s.skip(k);
        let t2 = t.skip(k);
        assert(s2 =~= t2.take(s2.len() as int));
        lemma_prefix_from(s2, t2, cap, offset + k);
    }
}

/// When one stream is a strict prefix of the other, the shorter one is
/// reported as ending first, whichever side it is on.
pub proof fn law_strict_prefix_length_mismatch(s: Seq<u8>, t: Seq<u8>, cap: nat)
    requires
        cap > 0,
        s.len() < t.len(),
        s == t.take(s.len() as int),
    ensures
        contents_outcome(s, t, cap) == (Outcome::LengthMismatch { shorter: Side::First }),
        contents_outcome(t, s, cap) == (Outcome::LengthMismatch { shorter: Side::Second }),
{
    lemma_prefix_from(s, t, cap, 0);
    law_exchange_mirrors(s, t, cap);
}

proof fn lemma_chunk_mirrored(offset: int, a: Seq<u8>, b: Seq<u8>)
    ensures
        chunk_outcome(offset, b, a) == match chunk_outcome(offset, a, b) {
            Some(o) => Some(mirrored(o)),
            None => None,
        },
{
    if a.len() == b.len() && a != b {
        lemma_equal_or_first_difference(a, b);
        let i = first_difference(a, b);
        assert(is_first_difference(b, a, i));
        lemma_first_difference_unique(b, a, i);
    }
}

proof fn lemma_exchange_from(s: Seq<u8>, t: Seq<u8>, cap: nat, offset: int)
    requires
        cap > 0,
    ensures
        stream_outcome(t, s, cap, offset) == mirrored(stream_outcome(s, t, cap, offset)),
    decreases s.len(),
{
    let ca = next_chunk(s, cap);
    let cb = next_chunk(t, cap);
    lemma_chunk_mirrored(offset, ca, cb);
    if chunk_outcome(offset, ca, cb) is None {
        let k = ca.len() as int;
        lemma_exchange_from(s.skip(k), t.skip(k), cap, offset + k);
    }
}

/// Exchanging the two streams exchanges the sides of the outcome: both are
/// identical together, and a difference is reported at the same offset.
pub proof fn law_exchange_mirrors(s: Seq<u8>, t: Seq<u8>, cap: nat)
    requires
        cap > 0,
    ensures
        contents_outcome(t, s, cap) == mirrored(contents_outcome(s, t, cap)),
{
    lemma_exchange_from(s, t, cap, 0);
}

/// The outcome is determined by the two contents and the buffer capacity
/// alone, so comparing the same unchanged pair again gives the same outcome.
pub proof fn law_repeat_comparison(s1: Seq<u8>, t1: Seq<u8>, s2: Seq<u8>, t2: Seq<u8>, cap: nat)
    requires
        cap > 0,
        s1 == s2,
        t1 == t2,
    ensures
        contents_outcome(s1, t1, cap) == contents_outcome(s2, t2, cap),
{
}

} // verus!
