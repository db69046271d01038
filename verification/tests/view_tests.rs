use waveform_display::peaks::find_top_peaks;
use waveform_display::view::ViewState;

#[test]
fn view_starts_with_both_panels_shown() {
    let view = ViewState::new(Vec::new());
    assert!(view.waveform_visible());
    assert!(view.spectrum_visible());
}

#[test]
fn hiding_spectrum_leaves_waveform_and_peaks_alone() {
    let keys: Vec<u64> = vec![0, 3, 9, 1, 5, 0, 0, 0, 0, 0];
    let peaks = find_top_peaks(&keys, 500);
    let expected = peaks.clone();
    let mut view = ViewState::new(peaks);

    view.set_show_fft(false);
    assert!(!view.spectrum_visible());
    assert!(view.waveform_visible());
    assert_eq!(*view.top_peaks(), expected);

    view.set_show_fft(true);
    assert!(view.spectrum_visible());
    assert!(view.waveform_visible());
    assert_eq!(*view.top_peaks(), expected);
}

#[test]
fn hiding_waveform_leaves_spectrum_and_peaks_alone() {
    let keys: Vec<u64> = vec![0, 3, 9, 1, 5, 0, 0, 0, 0, 0];
    let peaks = find_top_peaks(&keys, 500);
    let expected = peaks.clone();
    let mut view = ViewState::new(peaks);

    view.set_show_raw_data(false);
    assert!(!view.waveform_visible());
    assert!(view.spectrum_visible());
    assert_eq!(*view.top_peaks(), expected);
}

#[test]
fn hiding_both_panels_keeps_peak_list() {
    let keys: Vec<u64> = vec![0, 3, 9, 1, 5, 0, 0, 0, 0, 0];
    let peaks = find_top_peaks(&keys, 500);
    let expected = peaks.clone();
    let mut view = ViewState::new(peaks);

    view.set_show_raw_data(false);
    view.set_show_fft(false);
    assert!(!view.waveform_visible());
    assert!(!view.spectrum_visible());
    assert_eq!(*view.top_peaks(), expected);
}
