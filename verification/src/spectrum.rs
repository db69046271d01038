//! Frequency-axis bookkeeping for a discrete Fourier transform.
//!
//! An `n`-point transform of real input has `n` output bins. Bin `i`
//! represents the frequency `i * sample_rate / n` hertz when `i <= n / 2`,
//! and the negative frequency `(i - n) * sample_rate / n` otherwise. The
//! functions here compute the folded (signed) axis value of each bin and
//! the exact bin-to-hertz conversion as a rational number.

use vstd::prelude::*;

verus! {

/// Folded frequency-axis value of bin `i` in an `n`-point transform:
/// `i` for the lower half (including the midpoint), `i - n` above it.
pub open spec fn folded_bin(i: int, n: int) -> int {
    if i <= n / 2 {
        i
    } else {
        i - n
    }
}

/// Folded frequency-axis value of one bin.
pub fn fold_bin(i: usize, n: usize) -> (r: i64)
    requires
        i < n,
        n <= u32::MAX as usize,
    ensures
        r == folded_bin(i as int, n as int),
{
    if i <= n / 2 {
        i as i64
    } else {
        (i as i64) - (n as i64)
    }
}

/// The folded frequency axis of an `n`-point transform, one value per bin.
pub fn frequency_axis(n: usize) -> (r: Vec<i64>)
    requires
        n <= u32::MAX as usize,
    ensures
        r@.len() == n,
        forall|i: int| 0 <= i < n ==> r@[i] == folded_bin(i, n as int),
{
    let mut r: Vec<i64> = Vec::new();
    let mut i: usize = 0;
    while i < n
        invariant
            i <= n,
            n <= u32::MAX as usize,
            r@.len() == i,
            forall|j: int| 0 <= j < i ==> r@[j] == folded_bin(j, n as int),
        decreases n - i,
    {
        let v = fold_bin(i, n);
        r.push(v);
        i = i + 1;
    }
    r
}

/// The frequency of bin `bin` in hertz, as the exact rational
/// `bin * sample_rate / n`: the pair of its numerator and denominator.
pub fn bin_to_hz(bin: usize, sample_rate: u32, n: usize) -> (r: (u64, u64))
    requires
        bin < n,
        n <= u32::MAX as usize,
    ensures
        r.0 == bin * sample_rate,
        r.1 == n,
{
    assert((bin as u64) * (sample_rate as u64) <= u64::MAX) by (nonlinear_arith)
        requires
            bin <= u32::MAX as usize,
            sample_rate <= u32::MAX,
    ;
    ((bin as u64) * (sample_rate as u64), n as u64)
}

} // verus!
