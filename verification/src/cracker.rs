//! The cracking engine core: deterministic candidate enumeration, first-match
//! search, and the laws that make the outcome independent of how the stream
//! is cut into batches.

use vstd::prelude::*;
use crate::handshake::Handshake;
use crate::generator::{
    pow10,
    spec_digits,
    digit_candidates,
    render_digits,
    pow10_u64,
    lemma_pow10_mono,
    lemma_pow10_19,
};

verus! {

/// What a finished crack reports: the winning passphrase, if any, and how
/// many candidates were attempted.
#[derive(Debug, Clone)]
pub struct CrackResult {
    /// The matching candidate, or `None` when the space was exhausted.
    pub password: Option<Vec<u8>>,
    /// Number of candidates checked.
    pub attempts: u64,
}

/// Rejection of a crack request before any work is dispatched.
#[derive(Clone, Copy, PartialEq, Eq, Structural, Debug)]
pub enum CrackError {
    /// The handshake record or the numeric range violates its invariants.
    InputInvalid,
}

/// The index of the first candidate at or after `i` that verifies, if any.
pub open spec fn first_match_from(hs: Handshake, cs: Seq<Seq<u8>>, i: int) -> Option<int>
    decreases cs.len() - i
    when 0 <= i <= cs.len()
{
    if i >= cs.len() {
        None
    } else if hs.verifies(cs[i]) {
        Some(i)
    } else {
        first_match_from(hs, cs, i + 1)
    }
}

/// The index of the first candidate in `cs` that verifies against `hs`.
pub open spec fn first_match(hs: Handshake, cs: Seq<Seq<u8>>) -> Option<int> {
    first_match_from(hs, cs, 0)
}

proof fn lemma_first_match_from_is(hs: Handshake, cs: Seq<Seq<u8>>, j: int, i: int)
    requires
        0 <= j <= i < cs.len(),
        hs.verifies(cs[i]),
        forall|k: int| j <= k < i ==> !hs.verifies(#[trigger] cs[k]),
    ensures
        first_match_from(hs, cs, j) == Some(i),
    decreases i - j,
{
    if j < i {
        lemma_first_match_from_is(hs, cs, j + 1, i);
    }
}

proof fn lemma_first_match_from_none(hs: Handshake, cs: Seq<Seq<u8>>, j: int)
    requires
        0 <= j <= cs.len(),
        forall|k: int| j <= k < cs.len() ==> !hs.verifies(#[trigger] cs[k]),
    ensures
        first_match_from(hs, cs, j) is None,
    decreases cs.len() - j,
{
    if j < cs.len() {
        lemma_first_match_from_none(hs, cs, j + 1);
    }
}

/// What the first match is: a verifying candidate preceded only by failing
/// ones, or nothing, in which case every candidate fails.
pub proof fn lemma_first_match_spec(hs: Handshake, cs: Seq<Seq<u8>>)
    ensures
        match first_match(hs, cs) {
            Some(i) => 0 <= i < cs.len() && hs.verifies(cs[i]) && forall|k: int|
                0 <= k < i ==> !hs.verifies(#[trigger] cs[k]),
            None => forall|k: int| 0 <= k < cs.len() ==> !hs.verifies(#[trigger] cs[k]),
        },
{
    lemma_first_match_from_spec(hs, cs, 0);
}

proof fn lemma_first_match_from_spec(hs: Handshake, cs: Seq<Seq<u8>>, j: int)
    requires
        0 <= j <= cs.len(),
    ensures
        match first_match_from(hs, cs, j) {
            Some(i) => j <= i < cs.len() && hs.verifies(cs[i]) && forall|k: int|
                j <= k < i ==> !hs.verifies(#[trigger] cs[k]),
            None => forall|k: int| j <= k < cs.len() ==> !hs.verifies(#[trigger] cs[k]),
        },
    decreases cs.len() - j,
{
    if j < cs.len() && !hs.verifies(cs[j]) {
        lemma_first_match_from_spec(hs, cs, j + 1);
    }
}

/// Cutting the candidate stream at any point changes nothing: the first
/// match of the whole stream is the first match of the front part, or else
/// the first match of the back part shifted past the cut. Hence workers that
/// scan consecutive batches in order reproduce the sequential outcome,
/// whatever the batch size.
pub proof fn lemma_first_match_split(hs: Handshake, cs: Seq<Seq<u8>>, m: int)
    requires
        0 <= m <= cs.len(),
    ensures
        first_match(hs, cs) == match first_match(hs, cs.take(m)) {
            Some(i) => Some(i),
            None => match first_match(hs, cs.skip(m)) {
                Some(i) => Some(i + m),
                None => None::<int>,
            },
        },
{
    let front = cs.take(m);
    let back = cs.skip(m);
    lemma_first_match_spec(hs, front);
    lemma_first_match_spec(hs, back);
    match first_match(hs, front) {
        Some(i) => {
            assert(cs[i] == front[i]);
            assert(forall|k: int| 0 <= k < i ==> cs[k] == front[k]);
            lemma_first_match_from_is(hs, cs, 0, i);
        },
        None => {
            assert(forall|k: int| 0 <= k < m ==> cs[k] == front[k]);
            match first_match(hs, back) {
                Some(i) => {
                    assert(cs[i + m] == back[i]);
                    assert(forall|k: int| m <= k < i + m ==> cs[k] == back[k - m]);
                    lemma_first_match_from_is(hs, cs, 0, i + m);
                },
                None => {
                    assert(forall|k: int| m <= k < cs.len() ==> cs[k] == back[k - m]);
                    lemma_first_match_from_none(hs, cs, 0);
                },
            }
        },
    }
}

/// Whether any candidate is found does not depend on enumeration order or
/// batching at all: a match exists exactly when some candidate verifies.
pub proof fn lemma_match_outcome(hs: Handshake, cs: Seq<Seq<u8>>)
    ensures
        (first_match(hs, cs) is Some) <==> exists|i: int|
            0 <= i < cs.len() && hs.verifies(#[trigger] cs[i]),
{
    lemma_first_match_spec(hs, cs);
    if first_match(hs, cs) is Some {
        let i = first_match(hs, cs).unwrap();
        assert(0 <= i < cs.len() && hs.verifies(cs[i]));
    }
}

/// When exactly one candidate verifies, every scan order reports that
/// candidate: the first match is it, and so is the first match of any part
/// of the stream that contains it.
pub proof fn lemma_unique_match(hs: Handshake, cs: Seq<Seq<u8>>, i: int)
    requires
        0 <= i < cs.len(),
        hs.verifies(cs[i]),
        forall|k: int| 0 <= k < cs.len() && k != i ==> !hs.verifies(#[trigger] cs[k]),
    ensures
        first_match(hs, cs) == Some(i),
{
    lemma_first_match_from_is(hs, cs, 0, i);
}

/// The numeric candidate stream: all `min`-digit strings in ascending order,
/// then all `min + 1`-digit strings, and so on up to `max` digits.
pub open spec fn numeric_candidates(min: nat, max: nat) -> Seq<Seq<u8>>
    decreases max + 1 - min,
{
    if min > max {
        Seq::empty()
    } else {
        digit_candidates(min) + numeric_candidates(min + 1, max)
    }
}

/// How many candidates the numeric stream holds: the sum of 10^L over the
/// lengths L in `[min, max]`.
pub open spec fn count_candidates(min: nat, max: nat) -> nat
    decreases max + 1 - min,
{
    if min > max {
        0
    } else {
        pow10(min) + count_candidates(min + 1, max)
    }
}

/// A single-length enumeration covers exactly 10^L candidates: with no
/// early hit, `crack_numeric` over `[L, L]` attempts all of them.
pub proof fn lemma_single_length_count(len: nat)
    ensures
        count_candidates(len, len) == pow10(len),
        numeric_candidates(len, len).len() == pow10(len),
{
    lemma_numeric_len(len, len);
    assert(count_candidates(len + 1, len) == 0);
}

/// The stream's length is the candidate count.
pub proof fn lemma_numeric_len(min: nat, max: nat)
    ensures
        numeric_candidates(min, max).len() == count_candidates(min, max),
    decreases max + 1 - min,
{
    if min <= max {
        lemma_numeric_len(min + 1, max);
    }
}

/// Appending the next length: counting up to `max` adds 10^max.
proof fn lemma_count_snoc(min: nat, max: nat)
    requires
        1 <= min <= max,
    ensures
        count_candidates(min, max) == count_candidates(min, (max - 1) as nat) + pow10(max),
    decreases max + 1 - min,
{
    if min < max {
        lemma_count_snoc(min + 1, max);
    } else {
        assert(count_candidates(min + 1, max) == 0);
        assert(count_candidates(min, (max - 1) as nat) == 0);
    }
}

/// Nine times the candidate count telescopes to a difference of powers.
proof fn lemma_count_times_nine(min: nat, max: nat)
    requires
        1 <= min <= max,
    ensures
        9 * count_candidates(min, max) == pow10((max + 1) as nat) - pow10(min),
    decreases max + 1 - min,
{
    if min < max {
        lemma_count_times_nine(min + 1, max);
        assert(pow10((min + 1) as nat) == 10 * pow10(min));
    } else {
        assert(count_candidates(min + 1, max) == 0);
        assert(pow10((max + 1) as nat) == 10 * pow10(max));
    }
}

/// Any candidate count over lengths up to 19 fits comfortably in a u64.
pub proof fn lemma_count_fits(min: nat, max: nat)
    requires
        1 <= min <= max <= 19,
    ensures
        count_candidates(min, max) < 0xffff_ffff_ffff_ffff,
{
    lemma_count_times_nine(min, max);
    lemma_pow10_mono(max + 1, 20);
    lemma_pow10_19();
    assert(pow10(20) == 10 * pow10(19));
    assert(9 * count_candidates(min, max) <= pow10(20));
}

/// Where each candidate sits in the stream: the `j`-th `len`-digit string
/// stands at the count of all shorter lengths plus `j`.
proof fn lemma_numeric_index(min: nat, max: nat, len: nat, j: nat)
    requires
        1 <= min <= len <= max,
        j < pow10(len),
    ensures
        count_candidates(min, (len - 1) as nat) + j < count_candidates(min, max),
        numeric_candidates(min, max)[count_candidates(min, (len - 1) as nat) + j as int]
            == spec_digits(j, len),
    decreases len + 1 - min,
{
    lemma_numeric_len(min + 1, max);
    if min == len {
        assert(count_candidates(min, (len - 1) as nat) == 0);
        assert(numeric_candidates(min, max) == digit_candidates(min) + numeric_candidates(
            min + 1,
            max,
        ));
        assert(digit_candidates(min)[j as int] == spec_digits(j, min));
    } else {
        lemma_numeric_index(min + 1, max, len, j);
        assert(count_candidates(min, (len - 1) as nat) == pow10(min) + count_candidates(
            min + 1,
            (len - 1) as nat,
        ));
        assert(numeric_candidates(min, max)[count_candidates(min, (len - 1) as nat) + j as int]
            == numeric_candidates(min + 1, max)[count_candidates(min + 1, (len - 1) as nat)
            + j as int]);
    }
}

/// Enumerates every zero-padded numeric candidate of `min_digits` up to
/// `max_digits` digits in ascending order, checking each against the
/// handshake, and stops at the first match. Attempts count exactly the
/// candidates checked.
pub fn crack_numeric(h: &Handshake, min_digits: u64, max_digits: u64) -> (r: Result<
    CrackResult,
    CrackError,
>)
    ensures
        ({
            let cs = numeric_candidates(min_digits as nat, max_digits as nat);
            match r {
                Result::Err(e) => {
                    &&& e == CrackError::InputInvalid
                    &&& (!h.valid() || min_digits < 1 || max_digits < min_digits || max_digits
                        > 19)
                },
                Result::Ok(res) => {
                    &&& h.valid()
                    &&& 1 <= min_digits <= max_digits <= 19
                    &&& res.attempts <= cs.len()
                    &&& match res.password {
                        Some(p) => {
                            &&& res.attempts >= 1
                            &&& first_match(*h, cs) == Some(res.attempts - 1)
                            &&& p@ == cs[res.attempts - 1]
                            &&& h.verifies(p@)
                        },
                        None => {
                            &&& first_match(*h, cs) is None
                            &&& res.attempts == cs.len()
                        },
                    }
                },
            }
        }),
{
    if !h.is_valid() || min_digits < 1 || max_digits < min_digits || max_digits > 19 {
        return Result::Err(CrackError::InputInvalid);
    }
    let ghost cs = numeric_candidates(min_digits as nat, max_digits as nat);
    proof {
        lemma_numeric_len(min_digits as nat, max_digits as nat);
        lemma_count_fits(min_digits as nat, max_digits as nat);
    }
    let mut attempts: u64 = 0;
    let mut len: u64 = min_digits;
    while len <= max_digits
        invariant
            1 <= min_digits <= len <= max_digits + 1,
            max_digits <= 19,
            h.valid(),
            cs == numeric_candidates(min_digits as nat, max_digits as nat),
            cs.len() == count_candidates(min_digits as nat, max_digits as nat),
            count_candidates(min_digits as nat, max_digits as nat) < 0xffff_ffff_ffff_ffff,
            attempts == count_candidates(min_digits as nat, (len - 1) as nat),
            attempts <= cs.len(),
            forall|k: int| 0 <= k < attempts ==> !h.verifies(#[trigger] cs[k]),
        decreases max_digits + 1 - len,
    {
        let limit = pow10_u64(len);
        let ghost base = attempts as nat;
        let mut n: u64 = 0;
        while n < limit
            invariant
                1 <= min_digits <= len <= max_digits <= 19,
                h.valid(),
                cs == numeric_candidates(min_digits as nat, max_digits as nat),
                cs.len() == count_candidates(min_digits as nat, max_digits as nat),
                count_candidates(min_digits as nat, max_digits as nat) < 0xffff_ffff_ffff_ffff,
                limit == pow10(len as nat),
                n <= limit,
                base == count_candidates(min_digits as nat, (len - 1) as nat),
                attempts == base + n,
                attempts <= cs.len(),
                forall|k: int| 0 <= k < attempts ==> !h.verifies(#[trigger] cs[k]),
            decreases limit - n,
        {
            let candidate = render_digits(n, len as usize);
            proof {
                lemma_numeric_index(min_digits as nat, max_digits as nat, len as nat, n as nat);
                assert(cs[attempts as int] == candidate@);
            }
            if h.check_candidate(candidate.as_slice()) {
                proof {
                    lemma_first_match_from_is(*h, cs, 0, attempts as int);
                }
                return Result::Ok(
                    CrackResult { password: Some(candidate), attempts: attempts + 1 },
                );
            }
            attempts = attempts + 1;
            n = n + 1;
        }
        proof {
            lemma_count_snoc(min_digits as nat, len as nat);
        }
        len = len + 1;
    }
    proof {
        lemma_first_match_from_none(*h, cs, 0);
    }
    Result::Ok(CrackResult { password: None, attempts })
}

/// The candidates a wordlist contributes: its entries of valid WPA
/// passphrase length, 8 to 63 bytes, in their given order. Empty lines and
/// out-of-range entries are silently discarded.
pub open spec fn wordlist_candidates(words: Seq<Seq<u8>>) -> Seq<Seq<u8>> {
    words.filter(|w: Seq<u8>| 8 <= w.len() <= 63)
}

/// Checks every eligible wordlist entry against the handshake in order and
/// stops at the first match. Attempts count exactly the eligible candidates
/// checked; discarded entries are not attempted.
pub fn crack_wordlist(h: &Handshake, words: &Vec<Vec<u8>>) -> (r: Result<CrackResult, CrackError>)
    ensures
        ({
            let cs = wordlist_candidates(words.deep_view());
            match r {
                Result::Err(e) => {
                    &&& e == CrackError::InputInvalid
                    &&& !h.valid()
                },
                Result::Ok(res) => {
                    &&& h.valid()
                    &&& res.attempts <= cs.len()
                    &&& match res.password {
                        Some(p) => {
                            &&& res.attempts >= 1
                            &&& first_match(*h, cs) == Some(res.attempts - 1)
                            &&& p@ == cs[res.attempts - 1]
                            &&& h.verifies(p@)
                        },
                        None => {
                            &&& first_match(*h, cs) is None
                            &&& res.attempts == cs.len()
                        },
                    }
                },
            }
        }),
{
    if !h.is_valid() {
        return Result::Err(CrackError::InputInvalid);
    }
    let ghost ws = words.deep_view();
    let ghost pred = |w: Seq<u8>| 8 <= w.len() <= 63;
    let ghost cs = wordlist_candidates(ws);
    let mut attempts: u64 = 0;
    let mut i: usize = 0;
    proof {
        assert(ws.take(0) =~= Seq::<Seq<u8>>::empty());
        Seq::<Seq<u8>>::filter_distributes_over_add(ws.take(0), ws.skip(0), pred);
        broadcast use vstd::seq_lib::group_filter_ensures;
    }
    while i < words.len()
        invariant
            i <= words@.len(),
            ws == words.deep_view(),
            ws.len() == words@.len(),
            h.valid(),
            cs == ws.filter(pred),
            pred == (|w: Seq<u8>| 8 <= w.len() <= 63),
            attempts == ws.take(i as int).filter(pred).len(),
            attempts <= cs.len() <= ws.len(),
            ws.take(i as int).filter(pred) == cs.take(attempts as int),
            forall|k: int| 0 <= k < attempts ==> !h.verifies(#[trigger] cs[k]),
        decreases words@.len() - i,
    {
        let w = &words[i];
        proof {
            assert(ws.take(i + 1) =~= ws.take(i as int).push(ws[i as int]));
            ws.take(i as int).lemma_filter_push(ws[i as int], pred);
            ws.take(i as int).lemma_filter_len_push(pred, ws[i as int]);
            assert(ws == ws.take(i + 1) + ws.skip(i + 1));
            Seq::<Seq<u8>>::filter_distributes_over_add(ws.take(i + 1), ws.skip(i + 1), pred);
            crate::generator::lemma_deep_view_at(*words, i as int);
            assert(ws[i as int] == w@);
        }
        if 8 <= w.len() && w.len() <= 63 {
            proof {
                assert(cs == ws.take(i + 1).filter(pred) + ws.skip(i + 1).filter(pred));
                assert(ws.take(i + 1).filter(pred) == cs.take(attempts as int).push(w@));
                assert(cs[attempts as int] == w@);
                assert(ws.take(i + 1).filter(pred) =~= cs.take(attempts + 1));
            }
            if h.check_candidate(w.as_slice()) {
                proof {
                    lemma_first_match_from_is(*h, cs, 0, attempts as int);
                }
                let found = crate::byteops::sub_bytes(w.as_slice(), 0, w.len());
                assert(found@ =~= w@);
                return Result::Ok(CrackResult { password: Some(found), attempts: attempts + 1 });
            }
            attempts = attempts + 1;
        } else {
            proof {
                assert(ws.take(i + 1).filter(pred) == ws.take(i as int).filter(pred));
            }
        }
        i = i + 1;
    }
    proof {
        assert(ws.take(ws.len() as int) =~= ws);
        lemma_first_match_from_none(*h, cs, 0);
    }
    Result::Ok(CrackResult { password: None, attempts })
}

/// Scans one batch of candidates in order and returns the index of the first
/// match within it, if any. Workers of a parallel engine call this on the
/// batches they pull; the split and uniqueness laws above relate what they
/// see to the sequential outcome.
pub fn find_in_batch(h: &Handshake, batch: &Vec<Vec<u8>>) -> (r: Option<usize>)
    requires
        h.valid(),
    ensures
        match r {
            Some(i) => first_match(*h, batch.deep_view()) == Some(i as int),
            None => first_match(*h, batch.deep_view()) is None,
        },
{
    let ghost cs = batch.deep_view();
    let mut i: usize = 0;
    while i < batch.len()
        invariant
            i <= batch@.len(),
            cs == batch.deep_view(),
            cs.len() == batch@.len(),
            forall|k: int| 0 <= k < i ==> !h.verifies(#[trigger] cs[k]),
        decreases batch@.len() - i,
    {
        proof {
            crate::generator::lemma_deep_view_at(*batch, i as int);
        }
        if h.check_candidate(batch[i].as_slice()) {
            proof {
                lemma_first_match_from_is(*h, cs, 0, i as int);
            }
            return Some(i);
        }
        i = i + 1;
    }
    proof {
        lemma_first_match_from_none(*h, cs, 0);
    }
    None
}

} // verus!
