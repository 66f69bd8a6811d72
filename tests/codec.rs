use base64::Engine;
use radiotag::codec::{decode, encode, encode_to_uri, signature_uri, SIGNATURE_MAGIC};
use radiotag::signature::{duration_ms, DecodedSignature, FrequencyBand, FrequencyPeak};

fn peak(pass: u32, mag: u16, bin: u16) -> FrequencyPeak {
    FrequencyPeak {
        fft_pass_number: pass,
        peak_magnitude: mag,
        corrected_peak_frequency_bin: bin,
        sample_rate_hz: 16000,
    }
}

fn sample_signature() -> DecodedSignature {
    let mut s = DecodedSignature::new(16000, 192000);
    s.push_peak(FrequencyBand::_250_520, peak(3, 9000, 2500));
    s.push_peak(FrequencyBand::_250_520, peak(400, 65535, 4200));
    s.push_peak(FrequencyBand::_1450_3500, peak(u32::MAX, 1, 20000));
    s.push_peak(FrequencyBand::_3500_5500, peak(77, 12345, 45000));
    s
}

#[test]
fn round_trip_keeps_every_field() {
    let s = sample_signature();
    let bytes = encode(&s);
    assert_eq!(bytes.len(), 12 + 4 * 4 + 4 * 12);
    let back = decode(&bytes).expect("well formed");
    assert_eq!(back, s);
    assert_eq!(back.peaks(FrequencyBand::_520_1450).len(), 0);
    assert_eq!(back.peaks(FrequencyBand::_250_520)[1], peak(400, 65535, 4200));
}

#[test]
fn empty_signature_layout() {
    let s = DecodedSignature::new(16000, 5);
    let bytes = encode(&s);
    let mut expected = SIGNATURE_MAGIC.to_le_bytes().to_vec();
    expected.extend_from_slice(&16000u32.to_le_bytes());
    expected.extend_from_slice(&5u32.to_le_bytes());
    expected.extend_from_slice(&[0u8; 16]);
    assert_eq!(bytes, expected);
    assert_eq!(decode(&bytes), Some(s));
}

#[test]
fn malformed_bytes_are_rejected() {
    let bytes = encode(&sample_signature());
    assert_eq!(decode(&bytes[..bytes.len() - 1]), None);
    let mut longer = bytes.clone();
    longer.push(0);
    assert_eq!(decode(&longer), None);
    let mut bad_magic = bytes.clone();
    bad_magic[0] ^= 1;
    assert_eq!(decode(&bad_magic), None);
    let mut bad_count = bytes.clone();
    bad_count[12] = 200;
    assert_eq!(decode(&bad_count), None);
    assert_eq!(decode(&[]), None);
}

#[test]
fn uri_is_base64_of_encoding() {
    let s = sample_signature();
    let uri = encode_to_uri(&s);
    let expected = format!(
        "data:audio/vnd.shazam.sig;base64,{}",
        base64::engine::general_purpose::STANDARD.encode(encode(&s))
    );
    assert_eq!(uri, expected);
}

#[test]
fn uri_prefix_is_fixed() {
    assert_eq!(signature_uri("QUJD"), "data:audio/vnd.shazam.sig;base64,QUJD");
}

#[test]
fn duration_in_milliseconds() {
    assert_eq!(duration_ms(&DecodedSignature::new(16000, 192000)), 12000);
    assert_eq!(duration_ms(&DecodedSignature::new(16000, 1)), 0);
    assert_eq!(duration_ms(&DecodedSignature::new(16000, 2047)), 127);
    assert_eq!(duration_ms(&DecodedSignature::new(0, 2047)), 0);
    assert_eq!(duration_ms(&DecodedSignature::new(1, u32::MAX)), u32::MAX);
}

#[test]
fn ordinary_signatures_are_encodable() {
    assert!(radiotag::codec::encodable_lengths(&sample_signature()));
    assert!(radiotag::codec::encodable_lengths(&DecodedSignature::new(16000, 0)));
}
