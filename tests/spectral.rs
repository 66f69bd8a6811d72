use radiotag::signature::{DecodedSignature, FrequencyBand, FrequencyPeak};
use radiotag::spectral::{SignatureGenerator, BIN_COUNT, HOP_SIZE, WINDOW_SIZE};

const BACKGROUND: i32 = -1000;

fn flat_frame() -> Vec<i32> {
    vec![BACKGROUND; BIN_COUNT]
}

fn frame_with(levels: &[(usize, i32)]) -> Vec<i32> {
    let mut f = flat_frame();
    for &(bin, level) in levels {
        f[bin] = level;
    }
    f
}

fn all_peaks(sig: &DecodedSignature) -> Vec<(FrequencyBand, FrequencyPeak)> {
    let mut out = Vec::new();
    for band in [
        FrequencyBand::_250_520,
        FrequencyBand::_520_1450,
        FrequencyBand::_1450_3500,
        FrequencyBand::_3500_5500,
    ] {
        for p in sig.peaks(band) {
            out.push((band, *p));
        }
    }
    out
}

fn run(frames: Vec<Vec<i32>>) -> DecodedSignature {
    let mut g = SignatureGenerator::new((frames.len() * HOP_SIZE) as u32);
    for f in frames {
        g.push_spectrum(f);
    }
    g.into_signature()
}

#[test]
fn short_input_gives_empty_signature() {
    let samples: Vec<i16> = (0..2047).map(|i| ((i * 37) % 2000) as i16 - 1000).collect();
    let mut g = SignatureGenerator::new(samples.len() as u32);
    for hop in samples.chunks_exact(HOP_SIZE) {
        let window = g.push_samples(hop);
        assert_eq!(window.len(), WINDOW_SIZE);
        g.push_spectrum(frame_with(&[(100, 640000), (300, 900000)]));
    }
    assert_eq!(g.hops_done(), 15);
    let sig = g.into_signature();
    assert_eq!(sig.sample_rate_hz, 16000);
    assert_eq!(sig.number_samples, 2047);
    assert!(all_peaks(&sig).is_empty());
}

#[test]
fn empty_input_gives_empty_signature() {
    let sig = run(Vec::new());
    assert_eq!(sig.number_samples, 0);
    assert!(all_peaks(&sig).is_empty());
}

#[test]
fn window_is_last_samples_oldest_first() {
    let samples: Vec<i16> = (0..(17 * HOP_SIZE) as i32).map(|i| (i % 30000) as i16).collect();
    let mut g = SignatureGenerator::new(samples.len() as u32);
    let mut last = Vec::new();
    for (k, hop) in samples.chunks_exact(HOP_SIZE).enumerate() {
        last = g.push_samples(hop);
        if k == 0 {
            assert!(last[..WINDOW_SIZE - HOP_SIZE].iter().all(|&s| s == 0));
            assert_eq!(&last[WINDOW_SIZE - HOP_SIZE..], hop);
        }
    }
    assert_eq!(&last[..], &samples[samples.len() - WINDOW_SIZE..]);
}

#[test]
fn sample_ring_wraps_over_many_hops() {
    let hops = 256 * 128 + 1;
    let mut g = SignatureGenerator::new(0);
    let mut stream: Vec<i16> = Vec::new();
    let mut window = Vec::new();
    for k in 0..hops {
        let hop: Vec<i16> = (0..HOP_SIZE).map(|j| ((k * 7 + j * 13) % 65536) as u16 as i16).collect();
        stream.extend_from_slice(&hop);
        window = g.push_samples(&hop);
    }
    assert_eq!(&window[..], &stream[stream.len() - WINDOW_SIZE..]);
}

#[test]
fn isolated_spike_is_one_peak() {
    let mut frames = vec![frame_with(&[(100, 640000)])];
    for _ in 0..60 {
        frames.push(flat_frame());
    }
    let sig = run(frames);
    let peaks = all_peaks(&sig);
    assert_eq!(
        peaks,
        vec![(
            FrequencyBand::_520_1450,
            FrequencyPeak {
                fft_pass_number: 0,
                peak_magnitude: 10000,
                corrected_peak_frequency_bin: 6400,
                sample_rate_hz: 16000,
            }
        )]
    );
}

#[test]
fn uneven_neighbours_shift_peak_position() {
    let mut frames = vec![frame_with(&[(99, 320000), (100, 640000), (101, 480000)])];
    for _ in 0..50 {
        frames.push(flat_frame());
    }
    let peaks = all_peaks(&run(frames));
    assert_eq!(peaks.len(), 1);
    assert_eq!(peaks[0].1.corrected_peak_frequency_bin, 6410);
    assert_eq!(peaks[0].1.peak_magnitude, 10000);
}

#[test]
fn peak_needs_recognition_lag() {
    let mut frames = vec![frame_with(&[(100, 640000)])];
    for _ in 0..44 {
        frames.push(flat_frame());
    }
    assert!(all_peaks(&run(frames.clone())).is_empty());
    frames.push(flat_frame());
    assert_eq!(all_peaks(&run(frames)).len(), 1);
}

#[test]
fn peaks_outside_bands_are_dropped() {
    let mut frames = vec![frame_with(&[(20, 640000), (1000, 640000)])];
    for _ in 0..50 {
        frames.push(flat_frame());
    }
    assert!(all_peaks(&run(frames)).is_empty());
}

#[test]
fn quiet_bins_are_not_peaks() {
    let mut frames = vec![frame_with(&[(100, -1)])];
    for _ in 0..50 {
        frames.push(flat_frame());
    }
    assert!(all_peaks(&run(frames)).is_empty());
}

#[test]
fn peaks_land_in_their_bands() {
    let mut frames = vec![frame_with(&[(40, 500000), (100, 640000), (300, 700000), (600, 800000)])];
    for _ in 0..50 {
        frames.push(flat_frame());
    }
    let peaks = all_peaks(&run(frames));
    let bands: Vec<FrequencyBand> = peaks.iter().map(|p| p.0).collect();
    assert_eq!(
        bands,
        vec![
            FrequencyBand::_250_520,
            FrequencyBand::_520_1450,
            FrequencyBand::_1450_3500,
            FrequencyBand::_3500_5500
        ]
    );
    for (band, p) in peaks {
        let hz = p.corrected_peak_frequency_bin as f64 * 16000.0 / 2.0 / 1024.0 / 64.0;
        let (lo, hi) = match band {
            FrequencyBand::_250_520 => (250.0, 520.0),
            FrequencyBand::_520_1450 => (520.0, 1450.0),
            FrequencyBand::_1450_3500 => (1450.0, 3500.0),
            FrequencyBand::_3500_5500 => (3500.0, 5500.0),
        };
        assert!(lo <= hz && hz < hi);
    }
}

#[test]
fn ring_wraparound_keeps_lagged_frames() {
    let hops = 2 * 256 + 1 + 100;
    let mut frames = Vec::new();
    for k in 0..hops {
        if k % 97 == 0 && k + 46 <= hops {
            frames.push(frame_with(&[(100, 640000)]));
        } else {
            frames.push(flat_frame());
        }
    }
    let peaks = all_peaks(&run(frames));
    let expected: Vec<u32> = (0..hops as u32).filter(|k| k % 97 == 0 && k + 46 <= hops as u32).collect();
    let passes: Vec<u32> = peaks.iter().map(|p| p.1.fft_pass_number).collect();
    assert_eq!(passes, expected);
    for (band, p) in peaks {
        assert_eq!(band, FrequencyBand::_520_1450);
        assert_eq!(p.peak_magnitude, 10000);
        assert_eq!(p.corrected_peak_frequency_bin, 6400);
    }
}

#[test]
fn same_input_same_signature() {
    let build = || {
        let mut frames = Vec::new();
        for k in 0..120usize {
            frames.push(frame_with(&[(50 + k % 7, 300000 + (k as i32) * 1000), (400, 100 * k as i32)]));
        }
        run(frames)
    };
    assert_eq!(build(), build());
}
