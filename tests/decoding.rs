use radiotag::decoding::{
    append_capped, append_chunk, downmix, finish_decoding, Mp3Stream, REQUIRED_SAMPLES,
    STREAM_BYTE_BUDGET,
};
use radiotag::recognition::RecognitionError;

#[test]
fn downmix_averages_rounding_down() {
    assert_eq!(downmix(&vec![10, 20, -3, 0, 32767, 32767, -32768, -32768], 2), vec![15, -2, 32767, -32768]);
}

#[test]
fn downmix_mono_and_partial_frames() {
    assert_eq!(downmix(&vec![1, 2, 3], 1), vec![1, 2, 3]);
    assert_eq!(downmix(&vec![1, 2, 3], 2), vec![1]);
    assert_eq!(downmix(&vec![1, 2, 3], 0), Vec::<i16>::new());
    assert_eq!(downmix(&vec![-1, -1, 1], 3), vec![-1]);
}

#[test]
fn accumulation_stops_at_twelve_seconds() {
    let mut acc: Vec<i16> = Vec::new();
    let chunk: Vec<i16> = (0..100_000).map(|i| (i % 100) as i16).collect();
    assert!(!append_capped(&mut acc, &chunk));
    assert_eq!(acc.len(), 100_000);
    assert!(append_capped(&mut acc, &chunk));
    assert_eq!(acc.len(), REQUIRED_SAMPLES);
    assert_eq!(acc[100_000..], chunk[..92_000]);
    assert!(append_capped(&mut acc, &chunk));
    assert_eq!(acc.len(), REQUIRED_SAMPLES);
}

#[test]
fn byte_budget() {
    let mut buf: Vec<u8> = Vec::new();
    assert!(!append_chunk(&mut buf, &vec![7u8; STREAM_BYTE_BUDGET - 1]));
    assert!(append_chunk(&mut buf, &[1, 2]));
    assert_eq!(buf.len(), STREAM_BYTE_BUDGET + 1);
    assert_eq!(buf[STREAM_BYTE_BUDGET - 1..], [1, 2]);
}

#[test]
fn nothing_decoded_is_decode_error() {
    assert_eq!(finish_decoding(vec![1, 2], 0), Err(RecognitionError::Decode));
    assert_eq!(finish_decoding(vec![1, 2], 3), Ok(vec![1, 2]));
}

#[test]
fn garbage_bytes_decode_no_frame() {
    let mut stream = Mp3Stream::new(vec![0x42; 4096]);
    assert!(stream.next_mono_frame().is_none());
}
