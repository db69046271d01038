//! Display state of the two plot panels.
//!
//! The window shows a waveform panel and a spectrum panel, each behind its
//! own checkbox, together with the list of the strongest peaks. The state
//! here records the two toggles and owns the peak list; setting one toggle
//! leaves the other toggle and the peak list untouched, so hiding one plot
//! never disturbs the other plot's data or the listed peaks.

use vstd::prelude::*;
use crate::peaks::Peak;

verus! {

/// Which panels are shown, and the peaks listed beside the spectrum.
pub struct ViewState {
    pub show_raw_data: bool,
    pub show_fft: bool,
    pub top_peaks: Vec<Peak>,
}

impl ViewState {
    /// A fresh view over `top_peaks`, with both panels shown.
    pub fn new(top_peaks: Vec<Peak>) -> (r: ViewState)
        ensures
            r.show_raw_data,
            r.show_fft,
            r.top_peaks == top_peaks,
    {
        ViewState { show_raw_data: true, show_fft: true, top_peaks }
    }

    /// Show or hide the waveform panel; the spectrum toggle and the peak
    /// list are unchanged.
    pub fn set_show_raw_data(&mut self, show: bool)
        ensures
            final(self).show_raw_data == show,
            final(self).show_fft == old(self).show_fft,
            final(self).top_peaks == old(self).top_peaks,
    {
        self.show_raw_data = show;
    }

    /// Show or hide the spectrum panel; the waveform toggle and the peak
    /// list are unchanged.
    pub fn set_show_fft(&mut self, show: bool)
        ensures
            final(self).show_fft == show,
            final(self).show_raw_data == old(self).show_raw_data,
            final(self).top_peaks == old(self).top_peaks,
    {
        self.show_fft = show;
    }

    /// Whether the waveform panel is drawn.
    pub fn waveform_visible(&self) -> (r: bool)
        ensures
            r == self.show_raw_data,
    {
        self.show_raw_data
    }

    /// Whether the spectrum panel and the peak list are drawn.
    pub fn spectrum_visible(&self) -> (r: bool)
        ensures
            r == self.show_fft,
    {
        self.show_fft
    }

    /// The listed peaks, strongest first.
    pub fn top_peaks(&self) -> (r: &Vec<Peak>)
        ensures
            r == self.top_peaks,
    {
        &self.top_peaks
    }
}

} // verus!
