//! From fetched stream bytes to mono 16 kHz PCM: the byte budget of a fetch,
//! MP3 frame decoding, downmixing to mono, and the cap on the number of
//! samples a signature is made from.

use vstd::prelude::*;
use crate::recognition::RecognitionError;

verus! {

/// Bytes fetched from the stream for one recognition attempt.
pub const STREAM_BYTE_BUDGET: usize = 500000;

/// Samples a signature is made from: 12 seconds at 16 kHz.
pub const REQUIRED_SAMPLES: usize = 192000;

/// Appends a chunk of fetched bytes; says whether the byte budget is reached.
pub fn append_chunk(buffer: &mut Vec<u8>, chunk: &[u8]) -> (done: bool)
    ensures
        final(buffer)@ == old(buffer)@ + chunk@,
        done == (final(buffer)@.len() >= STREAM_BYTE_BUDGET),
{
    let ghost start = buffer@;
    let mut i: usize = 0;
    while i < chunk.len()
        invariant
            i <= chunk@.len(),
            buffer@ == start + chunk@.take(i as int),
        decreases chunk@.len() - i,
    {
        buffer.push(chunk[i]);
        proof {
            assert(chunk@.take(i + 1) =~= chunk@.take(i as int).push(chunk@[i as int]));
        }
        i = i + 1;
    }
    assert(chunk@.take(chunk@.len() as int) =~= chunk@);
    buffer.len() >= STREAM_BYTE_BUDGET
}

/// Sum of the first `c` channel samples of frame `i`.
pub open spec fn channel_sum(samples: Seq<i16>, channels: int, i: int, c: int) -> int
    decreases c,
{
    if c <= 0 {
        0
    } else {
        channel_sum(samples, channels, i, c - 1) + samples[i * channels + c - 1] as int
    }
}

/// Mean of the channel samples of frame `i`, rounded down.
pub open spec fn frame_mean(samples: Seq<i16>, channels: int, i: int) -> int {
    channel_sum(samples, channels, i, channels) / channels
}

proof fn lemma_channel_sum_bounds(samples: Seq<i16>, channels: int, i: int, c: int)
    requires
        0 <= c,
    ensures
        -32768 * c <= channel_sum(samples, channels, i, c) <= 32767 * c,
    decreases c,
{
    if c > 0 {
        lemma_channel_sum_bounds(samples, channels, i, c - 1);
    }
}

/// Downmixes interleaved samples to mono: each output sample is the mean of
/// one frame's channel samples, rounded down. Samples that do not fill a whole
/// frame at the end are dropped; no channels gives no output.
pub fn downmix(samples: &Vec<i16>, channels: usize) -> (mono: Vec<i16>)
    requires
        channels <= 65536,
    ensures
        channels == 0 ==> mono@.len() == 0,
        channels > 0 ==> mono@.len() == (samples@.len() as int) / (channels as int),
        channels > 0 ==> forall|i: int|
            0 <= i < mono@.len() ==> #[trigger] mono@[i] == frame_mean(
                samples@,
                channels as int,
                i,
            ),
{
    let mut mono: Vec<i16> = Vec::new();
    if channels == 0 {
        return mono;
    }
    let frames = samples.len() / channels;
    let mut i: usize = 0;
    while i < frames
        invariant
            0 < channels <= 65536,
            samples@.len() <= usize::MAX,
            frames == (samples@.len() as int) / (channels as int),
            i <= frames,
            mono@.len() == i,
            forall|j: int|
                0 <= j < i ==> #[trigger] mono@[j] == frame_mean(samples@, channels as int, j),
        decreases frames - i,
    {
        assert(i * channels + channels <= samples@.len()) by (nonlinear_arith)
            requires
                i < frames,
                frames == (samples@.len() as int) / (channels as int),
                channels > 0,
        ;
        let base = i * channels;
        let mut sum: i64 = 0;
        let mut c: usize = 0;
        while c < channels
            invariant
                0 < channels <= 65536,
                samples@.len() <= usize::MAX,
                base == i * channels,
                base + channels <= samples@.len(),
                c <= channels,
                sum == channel_sum(samples@, channels as int, i as int, c as int),
            decreases channels - c,
        {
            proof {
                lemma_channel_sum_bounds(samples@, channels as int, i as int, c as int);
            }
            sum = sum + samples[base + c] as i64;
            c = c + 1;
        }
        proof {
            lemma_channel_sum_bounds(samples@, channels as int, i as int, channels as int);
        }
        let shifted: u64 = (sum + 32768 * channels as i64) as u64;
        let mean: i64 = (shifted / channels as u64) as i64 - 32768;
        proof {
            let ch = channels as int;
            let total = channel_sum(samples@, ch, i as int, ch);
            assert((total + 32768 * ch) / ch == total / ch + 32768) by {
                vstd::arithmetic::div_mod::lemma_hoist_over_denominator(total, 32768, ch as nat);
            }
            assert(-32768 <= total / ch <= 32767) by {
                vstd::arithmetic::div_mod::lemma_div_is_ordered(-32768 * ch, total, ch);
                vstd::arithmetic::div_mod::lemma_div_is_ordered(total, 32767 * ch, ch);
                vstd::arithmetic::div_mod::lemma_div_multiples_vanish(-32768, ch);
                vstd::arithmetic::div_mod::lemma_div_multiples_vanish(32767, ch);
                assert(-32768 * ch == ch * -32768);
                assert(32767 * ch == ch * 32767);
            }
        }
        mono.push(mean as i16);
        i = i + 1;
    }
    mono
}

/// Appends samples to the accumulated PCM until it holds `REQUIRED_SAMPLES`;
/// says whether it does.
pub fn append_capped(acc: &mut Vec<i16>, more: &Vec<i16>) -> (full: bool)
    ensures
        final(acc)@ == old(acc)@ + more@.take(
            if old(acc)@.len() >= REQUIRED_SAMPLES {
                0
            } else if more@.len() < REQUIRED_SAMPLES - old(acc)@.len() {
                more@.len() as int
            } else {
                REQUIRED_SAMPLES - old(acc)@.len()
            },
        ),
        full == (final(acc)@.len() >= REQUIRED_SAMPLES),
{
    let ghost start = acc@;
    let mut i: usize = 0;
    while i < more.len() && acc.len() < REQUIRED_SAMPLES
        invariant
            i <= more@.len(),
            acc@ == start + more@.take(i as int),
            start.len() >= REQUIRED_SAMPLES ==> i == 0,
            start.len() < REQUIRED_SAMPLES ==> start.len() + i <= REQUIRED_SAMPLES,
        decreases more@.len() - i,
    {
        acc.push(more[i]);
        proof {
            assert(more@.take(i + 1) =~= more@.take(i as int).push(more@[i as int]));
        }
        i = i + 1;
    }
    acc.len() >= REQUIRED_SAMPLES
}

/// The decoded PCM, or a `Decode` error when no frame could be decoded.
pub fn finish_decoding(samples: Vec<i16>, frames_decoded: usize) -> (r: Result<
    Vec<i16>,
    RecognitionError,
>)
    ensures
        frames_decoded == 0 ==> r == Err::<Vec<i16>, RecognitionError>(RecognitionError::Decode),
        frames_decoded > 0 ==> r == Ok::<Vec<i16>, RecognitionError>(samples),
{
    if frames_decoded == 0 {
        Err(RecognitionError::Decode)
    } else {
        Ok(samples)
    }
}

#[verifier::external_type_specification]
#[verifier::external_body]
#[verifier::reject_recursive_types(R)]
pub struct ExDecoder<R>(minimp3::Decoder<R>);

#[verifier::external_type_specification]
#[verifier::external_body]
#[verifier::reject_recursive_types(T)]
pub struct ExCursor<T>(std::io::Cursor<T>);

/// One decoded MP3 frame: interleaved samples at the frame's own rate.
#[derive(Clone, Debug)]
pub struct PcmFrame {
    pub samples: Vec<i16>,
    pub sample_rate_hz: i32,
    pub channels: usize,
}

/// One frame downmixed to mono, still at the frame's own rate.
#[derive(Clone, Debug)]
pub struct MonoFrame {
    pub samples: Vec<i16>,
    pub sample_rate_hz: i32,
}

/// Relies on `minimp3::Decoder::new`, reading from the bytes in memory.
#[verifier::external_body]
fn open_decoder(bytes: Vec<u8>) -> (r: minimp3::Decoder<std::io::Cursor<Vec<u8>>>) {
    minimp3::Decoder::new(std::io::Cursor::new(bytes))
}

/// Relies on `minimp3::Decoder::next_frame`, which skips undecodable data and
/// fails at the end of the input. A decoded frame of the underlying C decoder
/// has one or two channels and a positive sample rate.
#[verifier::external_body]
fn decode_next(decoder: &mut minimp3::Decoder<std::io::Cursor<Vec<u8>>>) -> (r: Option<PcmFrame>)
    ensures
        r matches Some(f) ==> 1 <= f.channels <= 2 && f.sample_rate_hz > 0,
{
    match decoder.next_frame() {
        Ok(frame) => Some(
            PcmFrame { samples: frame.data, sample_rate_hz: frame.sample_rate, channels: frame.channels },
        ),
        Err(_) => None,
    }
}

/// MP3 frames decoded one at a time from fetched stream bytes.
pub struct Mp3Stream {
    decoder: minimp3::Decoder<std::io::Cursor<Vec<u8>>>,
}

impl Mp3Stream {
    pub fn new(bytes: Vec<u8>) -> (r: Mp3Stream) {
        Mp3Stream { decoder: open_decoder(bytes) }
    }

    /// The next decodable frame, downmixed to mono; `None` at the end of the
    /// input.
    pub fn next_mono_frame(&mut self) -> (r: Option<MonoFrame>)
        ensures
            r matches Some(m) ==> m.sample_rate_hz > 0,
    {
        match decode_next(&mut self.decoder) {
            Some(frame) => {
                let samples = downmix(&frame.samples, frame.channels);
                Some(MonoFrame { samples, sample_rate_hz: frame.sample_rate_hz })
            },
            None => None,
        }
    }
}

} // verus!
