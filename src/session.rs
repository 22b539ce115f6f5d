//! The comparison session: per-chunk decisions and the outcome of a whole
//! pair of streams read in equal-capacity chunks.
use vstd::prelude::*;
use vstd::slice::slice_subrange;

use crate::chunk::{
    compare_buffers_simd, first_difference, lemma_equal_or_first_difference,
    lemma_first_difference_unique,
};

verus! {

/// Capacity of each of the two read buffers; a multiple of the lane width.
pub const BUFFER_SIZE: usize = 4096;

/// Which of the two compared streams.
#[derive(Clone, Copy, Debug, PartialEq, Eq, Structural)]
pub enum Side {
    First,
    Second,
}

/// How a comparison ended.
#[derive(Clone, Copy, Debug, PartialEq, Eq, Structural)]
pub enum Outcome {
    /// Both streams ended together with no differing byte.
    Identical,
    /// The first differing byte, at a 0-based offset, with its value in each stream.
    Differ { offset: u64, byte_a: u8, byte_b: u8 },
    /// One stream ended before the other; `shorter` is the one that did.
    LengthMismatch { shorter: Side },
}

/// The decision taken on one pair of chunks when `offset` bytes have already
/// matched: `None` means both chunks match and the session goes on.
pub open spec fn chunk_outcome(offset: int, a: Seq<u8>, b: Seq<u8>) -> Option<Outcome> {
    if a.len() == 0 && b.len() == 0 {
        Some(Outcome::Identical)
    } else if a.len() != b.len() {
        Some(
            Outcome::LengthMismatch {
                shorter: if a.len() < b.len() {
                    Side::First
                } else {
                    Side::Second
                },
            },
        )
    } else if a == b {
        None
    } else {
        let i = first_difference(a, b);
        Some(Outcome::Differ { offset: (offset + i) as u64, byte_a: a[i], byte_b: b[i] })
    }
}

/// The chunk that a full-capacity read of `cap` bytes takes from the front of `s`.
pub open spec fn next_chunk(s: Seq<u8>, cap: nat) -> Seq<u8> {
    if s.len() <= cap {
        s
    } else {
        s.take(cap as int)
    }
}

/// The outcome of comparing streams `a` and `b` read in chunks of `cap`
/// bytes, `offset` bytes having matched before them.
pub open spec fn stream_outcome(a: Seq<u8>, b: Seq<u8>, cap: nat, offset: int) -> Outcome
    decreases a.len(),
    when cap > 0
{
    let ca = next_chunk(a, cap);
    let cb = next_chunk(b, cap);
    match chunk_outcome(offset, ca, cb) {
        Some(o) => o,
        None => stream_outcome(
            a.skip(ca.len() as int),
            b.skip(cb.len() as int),
            cap,
            offset + ca.len(),
        ),
    }
}

/// The outcome of comparing two whole streams through buffers of `cap` bytes.
pub open spec fn contents_outcome(a: Seq<u8>, b: Seq<u8>, cap: nat) -> Outcome {
    stream_outcome(a, b, cap, 0)
}

/// State of a comparison in progress: the bytes already matched in both streams.
pub struct Session {
    offset: u64,
}

impl View for Session {
    type V = nat;

    closed spec fn view(&self) -> nat {
        self.offset as nat
    }
}

impl Session {
    /// A session that has matched nothing yet.
    pub fn new() -> (r: Session)
        ensures
            r@ == 0,
    {
        Session { offset: 0 }
    }

    /// Bytes matched so far in each stream.
    pub fn offset(&self) -> (r: u64)
        ensures
            r == self@,
    {
        self.offset
    }

    /// Takes the next chunk of each stream, both read with the same capacity,
    /// and decides: `Some` ends the session with that outcome, `None` means
    /// the chunks match and the offset has moved past them.
    pub fn step(&mut self, a: &[u8], b: &[u8]) -> (r: Option<Outcome>)
        requires
            old(self)@ + a@.len() <= u64::MAX,
        ensures
            r == chunk_outcome(old(self)@ as int, a@, b@),
            final(self)@ == if r is None {
                old(self)@ + a@.len()
            } else {
                old(self)@
            },
    {
        let n1 = a.len();
        let n2 = b.len();
        if n1 == 0 && n2 == 0 {
            return Some(Outcome::Identical);
        }
        if n1 != n2 {
            let shorter = if n1 < n2 {
                Side::First
            } else {
                Side::Second
            };
            return Some(Outcome::LengthMismatch { shorter });
        }
        proof {
            lemma_equal_or_first_difference(a@, b@);
        }
        match compare_buffers_simd(a, b) {
            Some(pos) => {
                proof {
                    lemma_first_difference_unique(a@, b@, pos as int);
                }
                Some(Outcome::Differ { offset: self.offset + pos as u64, byte_a: a[pos], byte_b: b[pos] })
            },
            None => {
                self.offset = self.offset + n1 as u64;
                None
            },
        }
    }
}

/// Settles a comparison before any reading: two paths written alike name the
/// same file, which is identical to itself whether or not it can be read.
pub fn settled_without_reading(path1: &String, path2: &String) -> (r: Option<Outcome>)
    ensures
        r == if path1@ == path2@ {
            Some(Outcome::Identical)
        } else {
            None
        },
{
    if path1.eq(path2) {
        Some(Outcome::Identical)
    } else {
        None
    }
}

/// Compares two byte sequences held in memory exactly as a session over two
/// files does, reading both in chunks of `chunk_len` bytes.
pub fn compare_contents(a: &[u8], b: &[u8], chunk_len: usize) -> (r: Outcome)
    requires
        chunk_len > 0,
        a@.len() <= u64::MAX,
    ensures
        r == contents_outcome(a@, b@, chunk_len as nat),
{
    let mut session = Session::new();
    let mut pos: usize = 0;
    let ghost cap = chunk_len as nat;
    assert(a@.skip(0) =~= a@);
    assert(b@.skip(0) =~= b@);
    loop
        invariant
            chunk_len > 0,
            cap == chunk_len,
            a@.len() <= u64::MAX,
            pos <= a@.len(),
            pos <= b@.len(),
            session@ == pos,
            contents_outcome(a@, b@, cap) == stream_outcome(
                a@.skip(pos as int),
                b@.skip(pos as int),
                cap,
                pos as int,
            ),
        decreases a@.len() - pos,
    {
        let end_a = if a.len() - pos <= chunk_len {
            a.len()
        } else {
            pos + chunk_len
        };
        let end_b = if b.len() - pos <= chunk_len {
            b.len()
        } else {
            pos + chunk_len
        };
        let ca = slice_subrange(a, pos, end_a);
        let cb = slice_subrange(b, pos, end_b);
        let ghost ra = a@.skip(pos as int);
        let ghost rb = b@.skip(pos as int);
        assert(ca@ =~= next_chunk(ra, cap));
        assert(cb@ =~= next_chunk(rb, cap));
        match session.step(ca, cb) {
            Some(o) => {
                return o;
            },
            None => {
                assert(ra.skip(ca@.len() as int) =~= a@.skip(end_a as int));
                assert(rb.skip(cb@.len() as int) =~= b@.skip(end_b as int));
                pos = end_a;
            },
        }
    }
}

} // verus!
