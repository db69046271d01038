use waveform_display::spectrum::{bin_to_hz, fold_bin, frequency_axis};

#[test]
fn fold_bin_lower_half_is_identity() {
    assert_eq!(fold_bin(0, 500), 0);
    assert_eq!(fold_bin(1, 500), 1);
    assert_eq!(fold_bin(249, 500), 249);
    assert_eq!(fold_bin(250, 500), 250);
}

#[test]
fn fold_bin_upper_half_is_negative() {
    assert_eq!(fold_bin(251, 500), -249);
    assert_eq!(fold_bin(300, 500), -200);
    assert_eq!(fold_bin(499, 500), -1);
}

#[test]
fn fold_bin_odd_length() {
    assert_eq!(fold_bin(3, 7), 3);
    assert_eq!(fold_bin(4, 7), -3);
    assert_eq!(fold_bin(6, 7), -1);
}

#[test]
fn frequency_axis_small_transform() {
    let axis = frequency_axis(8);
    assert_eq!(axis, vec![0, 1, 2, 3, 4, -3, -2, -1]);
}

#[test]
fn frequency_axis_length_matches() {
    assert_eq!(frequency_axis(0).len(), 0);
    assert_eq!(frequency_axis(1), vec![0]);
    assert_eq!(frequency_axis(500).len(), 500);
}

#[test]
fn bin_to_hz_exact_rational() {
    // Bin 25 of a 500-point transform at 500 Hz is exactly 25 Hz.
    let (num, den) = bin_to_hz(25, 500, 500);
    assert_eq!(num, 12500);
    assert_eq!(den, 500);
    assert_eq!(num / den, 25);
}

#[test]
fn bin_to_hz_non_integral_frequency() {
    // Bin 3 of a 1000-point transform at 44100 Hz is 132300 / 1000 Hz.
    let (num, den) = bin_to_hz(3, 44100, 1000);
    assert_eq!(num, 132300);
    assert_eq!(den, 1000);
}
