//! Selection of the strongest spectral peaks.
//!
//! The spectrum of an `n`-point transform of real input is symmetric about
//! its midpoint, so only bins `1 .. n / 2` carry distinct physical
//! information (bin 0 is the DC component and is excluded). Each bin's
//! magnitude is represented by an order key: a `u64` whose ordering agrees
//! with the ordering of the magnitudes. The functions here pick the up to
//! three strongest such bins, ordered by descending key with ties broken
//! towards the lower bin, and attach each bin's exact frequency in hertz
//! as a rational number.

use vstd::prelude::*;

verus! {

/// One spectral peak: its bin index, its magnitude order key, and its
/// frequency in hertz as the exact rational `hz_num / hz_den`.
#[derive(Clone, Copy, PartialEq, Eq, Structural, Debug)]
pub struct Peak {
    pub bin: usize,
    pub key: u64,
    pub hz_num: u64,
    pub hz_den: u64,
}

/// The strict total order that ranks peaks: a larger key wins, and among
/// equal keys the lower bin wins.
pub open spec fn beats(k1: u64, b1: int, k2: u64, b2: int) -> bool {
    k1 > k2 || (k1 == k2 && b1 < b2)
}

/// Bin `b` is eligible as a peak of an `n`-bin spectrum: not the DC bin,
/// and in the lower (physically meaningful) half.
pub open spec fn eligible(b: int, n: int) -> bool {
    1 <= b && b < n / 2
}

/// Some peak in `r` has bin index `b`.
pub open spec fn contains_bin(r: Seq<Peak>, b: int) -> bool {
    exists|j: int| 0 <= j < r.len() && #[trigger] r[j].bin == b
}

/// `p` is a well-formed peak of the spectrum with magnitude keys `keys`
/// at `sample_rate`: an eligible bin, carrying that bin's key and its
/// exact frequency `bin * sample_rate / keys.len()` in hertz.
pub open spec fn peak_wf(p: Peak, keys: Seq<u64>, sample_rate: u32) -> bool {
    &&& eligible(p.bin as int, keys.len() as int)
    &&& p.key == keys[p.bin as int]
    &&& p.hz_num == p.bin * sample_rate
    &&& p.hz_den == keys.len()
}

/// The peaks in `r` are strictly ordered: each beats all that follow it.
pub open spec fn sorted_by_beats(r: Seq<Peak>) -> bool {
    forall|j: int, k: int|
        0 <= j < k < r.len() ==> beats(
            #[trigger] r[j].key,
            r[j].bin as int,
            #[trigger] r[k].key,
            r[k].bin as int,
        )
}

/// When `r` is not empty, every eligible bin left out of `r` is beaten by
/// the last peak of `r` (and hence, when `r` is sorted, by every peak of
/// `r`).
pub open spec fn dominates_rest(r: Seq<Peak>, keys: Seq<u64>) -> bool {
    forall|b: int|
        eligible(b, keys.len() as int) && !contains_bin(r, b) && r.len() > 0 ==> beats(
            r[r.len() - 1].key,
            r[r.len() - 1].bin as int,
            #[trigger] keys[b],
            b,
        )
}

/// A sequence of well-formed peaks ordered by `beats` is strictly ranked:
/// keys never increase along it, and no bin appears twice. In particular a
/// peak list returned sorted by `beats` is sorted by descending magnitude
/// key and never repeats a bin.
pub proof fn lemma_sorted_peaks_strictly_ranked(r: Seq<Peak>, keys: Seq<u64>, sample_rate: u32)
    requires
        sorted_by_beats(r),
        forall|j: int| 0 <= j < r.len() ==> peak_wf(#[trigger] r[j], keys, sample_rate),
    ensures
        forall|j: int, k: int| 0 <= j < k < r.len() ==> #[trigger] r[j].key >= #[trigger] r[k].key,
        forall|j: int, k: int| 0 <= j < k < r.len() ==> r[j].bin != r[k].bin,
{
    assert forall|j: int, k: int| 0 <= j < k < r.len() implies r[j].bin != r[k].bin by {
        assert(beats(r[j].key, r[j].bin as int, r[k].key, r[k].bin as int));
        assert(peak_wf(r[j], keys, sample_rate));
        assert(peak_wf(r[k], keys, sample_rate));
    }
}

/// A sorted peak list that dominates the rest of the spectrum never leaves
/// out an eligible bin whose key exceeds any returned peak's key: every
/// returned peak is at least as strong as every eligible bin left out.
pub proof fn lemma_peaks_dominate(r: Seq<Peak>, keys: Seq<u64>)
    requires
        sorted_by_beats(r),
        dominates_rest(r, keys),
    ensures
        forall|j: int, b: int|
            0 <= j < r.len() && eligible(b, keys.len() as int) && !contains_bin(r, b)
                ==> #[trigger] keys[b] <= #[trigger] r[j].key,
{
    assert forall|j: int, b: int|
        0 <= j < r.len() && eligible(b, keys.len() as int) && !contains_bin(r, b)
            implies #[trigger] keys[b] <= #[trigger] r[j].key by {
        assert(beats(r[r.len() - 1].key, r[r.len() - 1].bin as int, keys[b], b));
        if j < r.len() - 1 {
            assert(beats(r[j].key, r[j].bin as int, r[r.len() - 1].key, r[r.len() - 1].bin as int));
        }
    }
}

/// Whether some already-chosen peak occupies bin `b`.
fn bin_chosen(chosen: &Vec<Peak>, b: usize) -> (r: bool)
    ensures
        r == contains_bin(chosen@, b as int),
{
    let mut j: usize = 0;
    while j < chosen.len()
        invariant
            j <= chosen@.len(),
            forall|k: int| 0 <= k < j ==> #[trigger] chosen@[k].bin != b,
        decreases chosen@.len() - j,
    {
        if chosen[j].bin == b {
            return true;
        }
        j = j + 1;
    }
    false
}

/// The best eligible bin not yet chosen, under the `beats` order, or
/// `None` when every eligible bin is already chosen.
fn best_remaining(keys: &Vec<u64>, chosen: &Vec<Peak>) -> (r: Option<usize>)
    requires
        keys@.len() >= 2,
    ensures
        match r {
            Some(b) => {
                &&& eligible(b as int, keys@.len() as int)
                &&& !contains_bin(chosen@, b as int)
                &&& forall|c: int|
                    eligible(c, keys@.len() as int) && c != b && !contains_bin(chosen@, c)
                        ==> beats(keys@[b as int], b as int, #[trigger] keys@[c], c)
            },
            None => forall|c: int|
                eligible(c, keys@.len() as int) ==> contains_bin(chosen@, c),
        },
{
    let n = keys.len();
    let half: usize = n / 2;
    let mut best: Option<usize> = None;
    let mut b: usize = 1;
    while b < half
        invariant
            1 <= b,
            b <= half || half < 1,
            half == keys@.len() / 2,
            n == keys@.len(),
            match best {
                Some(i) => {
                    &&& 1 <= i < b
                    &&& i < half
                    &&& !contains_bin(chosen@, i as int)
                    &&& forall|c: int|
                        1 <= c < b && c != i && !contains_bin(chosen@, c)
                            ==> beats(keys@[i as int], i as int, #[trigger] keys@[c], c)
                },
                None => forall|c: int| 1 <= c < b ==> contains_bin(chosen@, c),
            },
        decreases half - b,
    {
        if !bin_chosen(chosen, b) {
            best = match best {
                Some(i) => if keys[b] > keys[i] {
                    Some(b)
                } else {
                    Some(i)
                },
                None => Some(b),
            };
        }
        b = b + 1;
    }
    best
}

/// The up to three strongest eligible bins of the spectrum whose magnitude
/// order keys are `keys`, strongest first.
///
/// The result's peaks are well formed, strictly ordered by descending key
/// (ties towards the lower bin), never include the DC bin, and beat every
/// eligible bin left out; fewer than three are returned only when every
/// eligible bin is included.
pub fn find_top_peaks(keys: &Vec<u64>, sample_rate: u32) -> (r: Vec<Peak>)
    requires
        keys@.len() >= 2,
        keys@.len() <= u32::MAX as usize,
    ensures
        r@.len() <= 3,
        forall|j: int| 0 <= j < r@.len() ==> peak_wf(#[trigger] r@[j], keys@, sample_rate),
        sorted_by_beats(r@),
        dominates_rest(r@, keys@),
        r@.len() < 3 ==> forall|b: int|
            eligible(b, keys@.len() as int) ==> contains_bin(r@, b),
{
    let n = keys.len();
    let mut r: Vec<Peak> = Vec::new();
    let mut exhausted = false;
    while r.len() < 3 && !exhausted
        invariant
            n == keys@.len(),
            2 <= n <= u32::MAX as usize,
            r@.len() <= 3,
            forall|j: int| 0 <= j < r@.len() ==> peak_wf(#[trigger] r@[j], keys@, sample_rate),
            sorted_by_beats(r@),
            dominates_rest(r@, keys@),
            exhausted ==> forall|b: int|
                eligible(b, keys@.len() as int) ==> contains_bin(r@, b),
        decreases 4 - r@.len() + (if exhausted { 0int } else { 1int }),
    {
        match best_remaining(keys, &r) {
            Some(b) => {
                let ghost r_old = r@;
                let (hz_num, hz_den) = crate::spectrum::bin_to_hz(b, sample_rate, n);
                let p = Peak { bin: b, key: keys[b], hz_num, hz_den };
                r.push(p);
                proof {
                    assert(r@ == r_old.push(p));
                    assert forall|j: int| 0 <= j < r@.len() implies peak_wf(
                        #[trigger] r@[j],
                        keys@,
                        sample_rate,
                    ) by {
                        if j < r_old.len() {
                            assert(r@[j] == r_old[j]);
                        }
                    }
                    assert forall|j: int, k: int| 0 <= j < k < r@.len() implies beats(
                        #[trigger] r@[j].key,
                        r@[j].bin as int,
                        #[trigger] r@[k].key,
                        r@[k].bin as int,
                    ) by {
                        if k < r_old.len() {
                            assert(r@[j] == r_old[j]);
                            assert(r@[k] == r_old[k]);
                        } else {
                            assert(r@[k] == p);
                            assert(!contains_bin(r_old, p.bin as int));
                            if r_old.len() > 0 {
                                assert(beats(
                                    r_old[r_old.len() - 1].key,
                                    r_old[r_old.len() - 1].bin as int,
                                    keys@[p.bin as int],
                                    p.bin as int,
                                ));
                            }
                            assert(r@[j] == r_old[j]);
                        }
                    }
                    assert forall|c: int|
                        eligible(c, keys@.len() as int) && !contains_bin(r@, c) && r@.len()
                        > 0 implies beats(
                        r@[r@.len() - 1].key,
                        r@[r@.len() - 1].bin as int,
                        #[trigger] keys@[c],
                        c,
                    ) by {
                        assert(!contains_bin(r_old, c)) by {
                            if contains_bin(r_old, c) {
                                let j = choose|j: int|
                                    0 <= j < r_old.len() && #[trigger] r_old[j].bin == c;
                                assert(r@[j].bin == c);
                            }
                        }
                        assert(r@[r@.len() - 1] == p);
                        assert(c != p.bin as int);
                    }
                }
            },
            None => {
                exhausted = true;
            },
        }
    }
    r
}

} // verus!
