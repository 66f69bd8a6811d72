use radiotag::signature::{band_of_bin, FrequencyBand};

#[test]
fn band_edges() {
    assert_eq!(band_of_bin(2047), None);
    assert_eq!(band_of_bin(2048), Some(FrequencyBand::_250_520));
    assert_eq!(band_of_bin(4259), Some(FrequencyBand::_250_520));
    assert_eq!(band_of_bin(4260), Some(FrequencyBand::_520_1450));
    assert_eq!(band_of_bin(11878), Some(FrequencyBand::_520_1450));
    assert_eq!(band_of_bin(11879), Some(FrequencyBand::_1450_3500));
    assert_eq!(band_of_bin(28671), Some(FrequencyBand::_1450_3500));
    assert_eq!(band_of_bin(28672), Some(FrequencyBand::_3500_5500));
    assert_eq!(band_of_bin(45055), Some(FrequencyBand::_3500_5500));
    assert_eq!(band_of_bin(45056), None);
    assert_eq!(band_of_bin(0), None);
    assert_eq!(band_of_bin(u16::MAX), None);
}

#[test]
fn every_bin_in_range_has_exactly_one_band() {
    for bin in 0..=u16::MAX {
        let hz = bin as f64 * 125.0 / 1024.0;
        let inside = (250.0..5500.0).contains(&hz);
        assert_eq!(band_of_bin(bin).is_some(), inside);
    }
}
