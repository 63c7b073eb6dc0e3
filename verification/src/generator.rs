//! Numeric candidate enumeration: every `length`-digit string, zero-padded,
//! in ascending order, cut into batches for parallel dispatch.

use vstd::prelude::*;

verus! {

/// 10 to the power `e`.
pub open spec fn pow10(e: nat) -> nat
    decreases e,
{
    if e == 0 {
        1
    } else {
        10 * pow10((e - 1) as nat)
    }
}

/// Powers of ten do not decrease with the exponent.
pub proof fn lemma_pow10_mono(a: nat, b: nat)
    requires
        a <= b,
    ensures
        pow10(a) <= pow10(b),
    decreases b,
{
    if a < b {
        lemma_pow10_mono(a, (b - 1) as nat);
    }
}

/// The largest power of ten a u64 enumeration uses.
pub proof fn lemma_pow10_19()
    ensures
        pow10(19) == 10_000_000_000_000_000_000,
{
    reveal_with_fuel(pow10, 20);
}

/// Computes 10^e.
pub fn pow10_u64(e: u64) -> (r: u64)
    requires
        e <= 19,
    ensures
        r == pow10(e as nat),
{
    proof {
        lemma_pow10_19();
    }
    let mut r: u64 = 1;
    let mut i: u64 = 0;
    while i < e
        invariant
            i <= e <= 19,
            r == pow10(i as nat),
            pow10(19) == 10_000_000_000_000_000_000,
        decreases e - i,
    {
        proof {
            lemma_pow10_mono(i as nat + 1, 19);
        }
        r = r * 10;
        i = i + 1;
    }
    r
}

/// The `len`-digit decimal rendering of `n`, zero-padded, most significant
/// digit first.
pub open spec fn spec_digits(n: nat, len: nat) -> Seq<u8> {
    Seq::new(len, |i: int| (48 + (n / pow10((len - 1 - i) as nat)) % 10) as u8)
}

/// Renders `n` as exactly `len` ASCII digits with leading zeros.
pub fn render_digits(n: u64, len: usize) -> (r: Vec<u8>)
    requires
        len <= 19,
    ensures
        r@ == spec_digits(n as nat, len as nat),
        r@.len() == len,
{
    let mut r: Vec<u8> = Vec::new();
    let mut i: usize = 0;
    while i < len
        invariant
            i <= len <= 19,
            r@.len() == i,
            forall|j: int|
                0 <= j < i ==> r@[j] == (48 + ((n as nat) / pow10((len - 1 - j) as nat)) % 10) as u8,
        decreases len - i,
    {
        let p = pow10_u64((len - 1 - i) as u64);
        proof {
            lemma_pow10_mono(0, (len - 1 - i) as nat);
        }
        let d = ((n / p) % 10) as u8 + 48;
        r.push(d);
        i = i + 1;
    }
    assert(r@ =~= spec_digits(n as nat, len as nat));
    r
}

/// The deep view of a vector of byte vectors reads off each element's view.
pub proof fn lemma_deep_view_at(v: Vec<Vec<u8>>, j: int)
    requires
        0 <= j < v@.len(),
    ensures
        v.deep_view()[j] == v@[j]@,
        v.deep_view().len() == v@.len(),
{
    assert(v.deep_view()[j] == v@[j].deep_view());
    assert(v@[j].deep_view() =~= v@[j]@);
}

/// All `len`-digit candidates, in ascending numeric order.
pub open spec fn digit_candidates(len: nat) -> Seq<Seq<u8>> {
    Seq::new(pow10(len), |i: int| spec_digits(i as nat, len))
}

/// Generates the numeric candidate space of one digit count, split into
/// batches that workers consume whole.
pub struct ParallelPasswordGenerator {
    /// First value enumerated (always 0, to cover zero-prefixed passphrases).
    pub start: u64,
    /// One past the last value enumerated: 10^length.
    pub end: u64,
    /// Number of digits each candidate is padded to.
    pub length: usize,
    /// Candidates per batch.
    pub batch_size: u64,
}

impl ParallelPasswordGenerator {
    /// The shape every generator built by `new` has.
    pub open spec fn wf(self) -> bool {
        &&& self.start == 0
        &&& self.end == pow10(self.length as nat)
        &&& 1 <= self.length <= 19
        &&& 1000 <= self.batch_size <= 50000
    }

    /// The batch size `new` picks: the candidate space divided over the
    /// workers, kept between 1000 and 50000 so per-batch overhead stays far
    /// below per-candidate cost.
    pub open spec fn spec_batch_size(length: nat, threads: nat) -> nat {
        let per_thread = pow10(length) / threads;
        let capped = if per_thread < 50000 {
            per_thread
        } else {
            50000
        };
        if capped < 1000 {
            1000
        } else {
            capped
        }
    }

    /// Creates a generator for all `length`-digit candidates, with a batch
    /// size tuned to the worker count.
    pub fn new(length: usize, threads: usize) -> (r: ParallelPasswordGenerator)
        requires
            1 <= length <= 19,
            threads >= 1,
        ensures
            r.wf(),
            r.length == length,
            r.start == 0,
            r.end == pow10(length as nat),
            r.batch_size == Self::spec_batch_size(length as nat, threads as nat),
    {
        proof {
            lemma_pow10_19();
            lemma_pow10_mono(length as nat, 19);
        }
        let start: u64 = 0;
        let end: u64 = pow10_u64(length as u64);
        let per_thread: u64 = end / (threads as u64);
        let capped: u64 = if per_thread < 50000 {
            per_thread
        } else {
            50000
        };
        let batch_size: u64 = if capped < 1000 {
            1000
        } else {
            capped
        };
        ParallelPasswordGenerator { start, end, length, batch_size }
    }

    /// Total number of candidates this generator enumerates: 10^length.
    pub fn total_combinations(&self) -> (r: u64)
        requires
            self.wf(),
        ensures
            r == pow10(self.length as nat),
    {
        self.end - self.start
    }

    /// Number of batches: total candidates divided by batch size, rounded up.
    pub fn batch_count(&self) -> (r: u64)
        requires
            self.wf(),
        ensures
            r == (pow10(self.length as nat) + self.batch_size - 1) / (self.batch_size as int),
    {
        proof {
            lemma_pow10_19();
            lemma_pow10_mono(self.length as nat, 19);
        }
        (self.end - self.start + (self.batch_size - 1)) / self.batch_size
    }

    /// Builds batch `b`: the candidates with values in
    /// `[b * batch_size, min((b + 1) * batch_size, 10^length))`.
    pub fn batch(&self, b: u64) -> (r: Vec<Vec<u8>>)
        requires
            self.wf(),
            b * self.batch_size < pow10(self.length as nat),
        ensures
            r.deep_view() == digit_candidates(self.length as nat).subrange(
                b * self.batch_size,
                if (b + 1) * self.batch_size < pow10(self.length as nat) {
                    (b + 1) * self.batch_size
                } else {
                    pow10(self.length as nat) as int
                },
            ),
    {
        proof {
            lemma_pow10_19();
            lemma_pow10_mono(self.length as nat, 19);
        }
        let lo: u64 = b * self.batch_size;
        let hi: u64 = if self.end - lo > self.batch_size {
            lo + self.batch_size
        } else {
            self.end
        };
        let mut r: Vec<Vec<u8>> = Vec::new();
        let mut n: u64 = lo;
        while n < hi
            invariant
                lo <= n <= hi <= pow10(self.length as nat),
                self.wf(),
                r@.len() == n - lo,
                forall|j: int|
                    0 <= j < n - lo ==> r@[j]@ == spec_digits(
                        (lo + j) as nat,
                        self.length as nat,
                    ),
            decreases hi - n,
        {
            let c = render_digits(n, self.length);
            r.push(c);
            n = n + 1;
        }
        proof {
            assert((b + 1) * self.batch_size == b * self.batch_size + self.batch_size)
                by (nonlinear_arith);
            let dc = digit_candidates(self.length as nat);
            let end_ix = if (b + 1) * self.batch_size < pow10(self.length as nat) {
                (b + 1) * self.batch_size
            } else {
                pow10(self.length as nat) as int
            };
            assert(hi == end_ix);
            assert forall|k: int| 0 <= k < r@.len() implies r.deep_view()[k] == dc.subrange(
                lo as int,
                end_ix,
            )[k] by {
                lemma_deep_view_at(r, k);
            }
            assert(r.deep_view().len() == r@.len());
            assert(r.deep_view() =~= dc.subrange(lo as int, end_ix));
        }
        r
    }
}

} // verus!
