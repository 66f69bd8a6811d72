//! The structured signature: frequency bands, peaks, and the per-band peak lists.

use vstd::prelude::*;

verus! {

/// Sample rate of the PCM input the signature is computed from.
pub const SAMPLE_RATE_HZ: u32 = 16000;

/// One of the four frequency ranges peaks are grouped by.
#[allow(non_camel_case_types)]
#[derive(Clone, Copy, Debug, PartialEq, Eq, Hash, Structural)]
pub enum FrequencyBand {
    _250_520,
    _520_1450,
    _1450_3500,
    _3500_5500,
}

/// Lower bound of a band, in Hz (inclusive).
pub open spec fn band_lower_hz(band: FrequencyBand) -> int {
    match band {
        FrequencyBand::_250_520 => 250,
        FrequencyBand::_520_1450 => 520,
        FrequencyBand::_1450_3500 => 1450,
        FrequencyBand::_3500_5500 => 3500,
    }
}

/// Upper bound of a band, in Hz (exclusive).
pub open spec fn band_upper_hz(band: FrequencyBand) -> int {
    match band {
        FrequencyBand::_250_520 => 520,
        FrequencyBand::_520_1450 => 1450,
        FrequencyBand::_1450_3500 => 3500,
        FrequencyBand::_3500_5500 => 5500,
    }
}

/// A corrected bin `c` stands for `c * 16000 / 2 / 1024 / 64 = c * 125 / 1024` Hz;
/// it lies in `band` when that frequency is within the band's bounds.
pub open spec fn in_band(band: FrequencyBand, bin: int) -> bool {
    band_lower_hz(band) * 1024 <= bin * 125 < band_upper_hz(band) * 1024
}

/// The band a corrected bin falls in, if its frequency is within [250, 5500) Hz.
pub open spec fn spec_band_of_bin(bin: int) -> Option<FrequencyBand> {
    if in_band(FrequencyBand::_250_520, bin) {
        Some(FrequencyBand::_250_520)
    } else if in_band(FrequencyBand::_520_1450, bin) {
        Some(FrequencyBand::_520_1450)
    } else if in_band(FrequencyBand::_1450_3500, bin) {
        Some(FrequencyBand::_1450_3500)
    } else if in_band(FrequencyBand::_3500_5500, bin) {
        Some(FrequencyBand::_3500_5500)
    } else {
        None
    }
}

/// Classifies a corrected frequency bin (1/64 of an FFT bin) into its band.
pub fn band_of_bin(bin: u16) -> (r: Option<FrequencyBand>)
    ensures
        r == spec_band_of_bin(bin as int),
{
    let scaled: u32 = bin as u32 * 125;
    if scaled < 250 * 1024 {
        None
    } else if scaled < 520 * 1024 {
        Some(FrequencyBand::_250_520)
    } else if scaled < 1450 * 1024 {
        Some(FrequencyBand::_520_1450)
    } else if scaled < 3500 * 1024 {
        Some(FrequencyBand::_1450_3500)
    } else if scaled < 5500 * 1024 {
        Some(FrequencyBand::_3500_5500)
    } else {
        None
    }
}

/// Every frequency in [250, 5500) Hz lies in exactly one band, the one that
/// classification returns; every other frequency lies in none.
pub proof fn lemma_bands_partition(bin: int, band: FrequencyBand)
    ensures
        in_band(band, bin) <==> spec_band_of_bin(bin) == Some(band),
        spec_band_of_bin(bin) is Some <==> 250 * 1024 <= bin * 125 < 5500 * 1024,
{
}

/// A spectral peak, as it is stored in a signature.
#[derive(Clone, Copy, Debug, PartialEq, Eq, Structural)]
pub struct FrequencyPeak {
    /// The hop at which the peak's frame was analysed.
    pub fft_pass_number: u32,
    /// Scaled log-magnitude of the peak.
    pub peak_magnitude: u16,
    /// Peak position in 1/64 of an FFT bin.
    pub corrected_peak_frequency_bin: u16,
    pub sample_rate_hz: u32,
}

/// A fingerprint: the peaks found in some PCM input, grouped by band, in the
/// order they were found.
#[derive(Clone, Debug, PartialEq, Eq)]
pub struct DecodedSignature {
    pub sample_rate_hz: u32,
    pub number_samples: u32,
    pub peaks_250_520: Vec<FrequencyPeak>,
    pub peaks_520_1450: Vec<FrequencyPeak>,
    pub peaks_1450_3500: Vec<FrequencyPeak>,
    pub peaks_3500_5500: Vec<FrequencyPeak>,
}

impl DecodedSignature {
    /// The peak list of one band.
    pub open spec fn band_peaks(&self, band: FrequencyBand) -> Seq<FrequencyPeak> {
        match band {
            FrequencyBand::_250_520 => self.peaks_250_520@,
            FrequencyBand::_520_1450 => self.peaks_520_1450@,
            FrequencyBand::_1450_3500 => self.peaks_1450_3500@,
            FrequencyBand::_3500_5500 => self.peaks_3500_5500@,
        }
    }

    /// Every peak is filed under the band its frequency lies in.
    pub open spec fn peaks_in_their_bands(&self) -> bool {
        forall|band: FrequencyBand, i: int|
            0 <= i < self.band_peaks(band).len() ==> in_band(
                band,
                #[trigger] self.band_peaks(band)[i].corrected_peak_frequency_bin as int,
            )
    }

    /// A signature with no peaks.
    pub fn new(sample_rate_hz: u32, number_samples: u32) -> (r: DecodedSignature)
        ensures
            r.sample_rate_hz == sample_rate_hz,
            r.number_samples == number_samples,
            forall|band: FrequencyBand| r.band_peaks(band).len() == 0,
    {
        DecodedSignature {
            sample_rate_hz,
            number_samples,
            peaks_250_520: Vec::new(),
            peaks_520_1450: Vec::new(),
            peaks_1450_3500: Vec::new(),
            peaks_3500_5500: Vec::new(),
        }
    }

    /// The peak list of one band.
    pub fn peaks(&self, band: FrequencyBand) -> (r: &Vec<FrequencyPeak>)
        ensures
            r@ == self.band_peaks(band),
    {
        match band {
            FrequencyBand::_250_520 => &self.peaks_250_520,
            FrequencyBand::_520_1450 => &self.peaks_520_1450,
            FrequencyBand::_1450_3500 => &self.peaks_1450_3500,
            FrequencyBand::_3500_5500 => &self.peaks_3500_5500,
        }
    }

    /// Appends a peak to the end of one band's list.
    pub fn push_peak(&mut self, band: FrequencyBand, peak: FrequencyPeak)
        ensures
            final(self).sample_rate_hz == old(self).sample_rate_hz,
            final(self).number_samples == old(self).number_samples,
            final(self).band_peaks(band) == old(self).band_peaks(band).push(peak),
            forall|other: FrequencyBand|
                other != band ==> #[trigger] final(self).band_peaks(other) == old(
                    self,
                ).band_peaks(other),
    {
        match band {
            FrequencyBand::_250_520 => self.peaks_250_520.push(peak),
            FrequencyBand::_520_1450 => self.peaks_520_1450.push(peak),
            FrequencyBand::_1450_3500 => self.peaks_1450_3500.push(peak),
            FrequencyBand::_3500_5500 => self.peaks_3500_5500.push(peak),
        }
    }
}

/// In a signature whose peaks are filed by band, every peak's frequency lies
/// in [250, 5500) Hz, and its band is the one classification gives it, so no
/// other band can hold it.
pub proof fn lemma_filed_peaks_classified(sig: DecodedSignature, band: FrequencyBand, i: int)
    requires
        sig.peaks_in_their_bands(),
        0 <= i < sig.band_peaks(band).len(),
    ensures
        ({
            let bin = sig.band_peaks(band)[i].corrected_peak_frequency_bin as int;
            &&& 250 * 1024 <= bin * 125 < 5500 * 1024
            &&& spec_band_of_bin(bin) == Some(band)
            &&& forall|other: FrequencyBand| other != band ==> !in_band(other, bin)
        }),
{
    let bin = sig.band_peaks(band)[i].corrected_peak_frequency_bin as int;
    assert(in_band(band, bin));
    lemma_bands_partition(bin, band);
    assert forall|other: FrequencyBand| other != band implies !in_band(other, bin) by {
        lemma_bands_partition(bin, other);
    }
}

/// Signature length in milliseconds: `number_samples * 1000 / sample_rate_hz`,
/// rounded down and saturated at `u32::MAX`; zero for a zero sample rate.
pub open spec fn spec_duration_ms(sig: DecodedSignature) -> int {
    if sig.sample_rate_hz == 0 {
        0
    } else if sig.number_samples as int * 1000 / sig.sample_rate_hz as int > u32::MAX {
        u32::MAX as int
    } else {
        sig.number_samples as int * 1000 / sig.sample_rate_hz as int
    }
}

/// Signature length in milliseconds.
pub fn duration_ms(sig: &DecodedSignature) -> (r: u32)
    ensures
        r == spec_duration_ms(*sig),
{
    if sig.sample_rate_hz == 0 {
        return 0;
    }
    let ms: u64 = sig.number_samples as u64 * 1000 / sig.sample_rate_hz as u64;
    if ms > u32::MAX as u64 {
        u32::MAX
    } else {
        ms as u32
    }
}

} // verus!
