use radiotag::recognition::{
    build_recognition_request, prepare_recognition, user_agent, USER_AGENT_COUNT,
};
use radiotag::signature::{DecodedSignature, FrequencyBand, FrequencyPeak};

#[test]
fn request_fields() {
    let r = build_recognition_request(
        "data:x".to_string(),
        12000,
        0x1_0000_0005,
        "aaaa",
        "bbbb",
        "agent",
    );
    assert_eq!(r.url, "https://amp.shazam.com/discovery/v5/en/US/android/-/tag/aaaa/bbbb");
    assert_eq!(r.user_agent, "agent");
    assert_eq!(r.sample_ms, 12000);
    assert_eq!(r.timestamp, 5);
    assert_eq!(r.signature_uri, "data:x");
    assert_eq!(r.timezone, "Europe/Paris");
    assert_eq!((r.altitude, r.latitude, r.longitude), (300, 45, 2));
}

#[test]
fn prepared_request() {
    let mut s = DecodedSignature::new(16000, 192000);
    s.push_peak(
        FrequencyBand::_520_1450,
        FrequencyPeak {
            fft_pass_number: 1,
            peak_magnitude: 2,
            corrected_peak_frequency_bin: 6400,
            sample_rate_hz: 16000,
        },
    );
    let r = prepare_recognition(&s, 1_700_000_000_123);
    let prefix = "https://amp.shazam.com/discovery/v5/en/US/android/-/tag/";
    assert!(r.url.starts_with(prefix));
    let ids: Vec<&str> = r.url[prefix.len()..].split('/').collect();
    assert_eq!(ids.len(), 2);
    assert_eq!(ids[0].len(), 36);
    assert_eq!(ids[1].len(), 36);
    assert_ne!(ids[0], ids[1]);
    assert_eq!(r.sample_ms, 12000);
    assert_eq!(r.timestamp, (1_700_000_000_123u64 % (1u64 << 32)) as u32);
    assert_eq!(r.signature_uri, radiotag::codec::encode_to_uri(&s));
    assert!((0..USER_AGENT_COUNT).any(|i| user_agent(i) == r.user_agent));
}

#[test]
fn user_agents_are_distinct() {
    for i in 0..USER_AGENT_COUNT {
        assert!(user_agent(i).starts_with("Dalvik/"));
        for j in 0..i {
            assert_ne!(user_agent(i), user_agent(j));
        }
    }
}
