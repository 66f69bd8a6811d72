//! The spectral-peak pipeline: a ring of raw samples that yields one analysis
//! window per hop, rings of spectral frames and of spread frames, and the peak
//! recognition that fills a signature.
//!
//! A spectral frame holds, for each of its 1025 bins, the bin's *level*: with
//! `m` the bin's normalised squared magnitude (floored at 1e-10), the level is
//! `64 * (6144 + 1477.3 * ln m)` rounded down. Level zero stands for `m = 1/64`,
//! and `level / 64` is the scaled log-magnitude that signatures store. Levels
//! order bins as their magnitudes do, so spreading and peak tests compare levels.

use vstd::prelude::*;
use vstd::arithmetic::div_mod::{
    lemma_add_mod_noop_right, lemma_div_is_ordered, lemma_div_multiples_vanish, lemma_div_pos_is_pos, lemma_mod_bound, lemma_mod_equivalence, lemma_mod_sub_multiples_vanish, lemma_small_mod,
};
use crate::signature::{
    band_of_bin, in_band, spec_band_of_bin, DecodedSignature, FrequencyBand, FrequencyPeak,
    SAMPLE_RATE_HZ,
};

verus! {

/// Samples per analysis window.
pub const WINDOW_SIZE: usize = 2048;

/// Samples per hop.
pub const HOP_SIZE: usize = 128;

/// Bins per spectral frame.
pub const BIN_COUNT: usize = 1025;

/// Frames kept by the spectral and spread rings.
pub const RING_FRAMES: usize = 256;

/// Hops that must be done before peak recognition runs.
pub const RECOGNITION_LAG: u32 = 46;

/// Level of a bin that holds no signal; the frame rings start filled with it.
pub const SILENT_LEVEL: i32 = -2147483648;

/// Largest level a frame may hold (`level / 64` must fit in 16 bits).
pub const MAX_LEVEL: i32 = 4194303;

pub open spec fn max_int(a: int, b: int) -> int {
    if a >= b {
        a
    } else {
        b
    }
}

pub open spec fn clamp_level(level: int) -> int {
    if level < 0 {
        0
    } else {
        level
    }
}

/// A frame that can be handed to the generator.
pub open spec fn valid_frame(frame: Seq<i32>) -> bool {
    &&& frame.len() == BIN_COUNT
    &&& forall|k: int| 0 <= k < BIN_COUNT ==> #[trigger] frame[k] <= MAX_LEVEL
}

pub open spec fn valid_frames(frames: Seq<Seq<i32>>) -> bool {
    forall|t: int| 0 <= t < frames.len() ==> valid_frame(#[trigger] frames[t])
}

/// Level of bin `k` of the frame of hop `t`; hops before the first are silent.
pub open spec fn raw_level(frames: Seq<Seq<i32>>, t: int, k: int) -> int {
    if 0 <= t < frames.len() && 0 <= k < frames[t].len() {
        frames[t][k] as int
    } else {
        SILENT_LEVEL as int
    }
}

/// Frequency-domain spreading: each bin below 1023 takes the maximum of itself
/// and its two upper neighbours.
pub open spec fn freq_spread_level(frames: Seq<Seq<i32>>, t: int, k: int) -> int {
    if k + 2 < BIN_COUNT {
        max_int(raw_level(frames, t, k), max_int(raw_level(frames, t, k + 1), raw_level(frames, t, k + 2)))
    } else {
        raw_level(frames, t, k)
    }
}

/// Spread level of bin `k` of hop `t` once hop `now` is done: the frequency
/// spread frame of `t`, maxed with those of hops `t + 1`, `t + 3` and `t + 6`
/// that are done.
pub open spec fn spread_level(frames: Seq<Seq<i32>>, t: int, now: int, k: int) -> int {
    let a = freq_spread_level(frames, t, k);
    let b = if t + 1 <= now {
        max_int(a, freq_spread_level(frames, t + 1, k))
    } else {
        a
    };
    let c = if t + 3 <= now {
        max_int(b, freq_spread_level(frames, t + 3, k))
    } else {
        b
    };
    if t + 6 <= now {
        max_int(c, freq_spread_level(frames, t + 6, k))
    } else {
        c
    }
}

/// Oldest-to-newest window of the last 2048 samples of `stream`, zero-padded
/// in front.
pub open spec fn window_of(stream: Seq<i16>) -> Seq<i16> {
    Seq::new(
        WINDOW_SIZE as nat,
        |j: int|
            {
                let pos = stream.len() - WINDOW_SIZE + j;
                if pos < 0 {
                    0i16
                } else {
                    stream[pos]
                }
            },
    )
}

/// Hop whose frame is tested for peaks once hop `now` is done.
pub open spec fn candidate_hop(now: int) -> int {
    now - 45
}

/// Hop of the spread frame the candidate is compared with.
pub open spec fn reference_hop(now: int) -> int {
    now - 48
}

/// Largest spread level among the eight frequency neighbours
/// {-10, -7, -4, -3, +1, +2, +5, +8} of bin `b` in the reference frame.
pub open spec fn freq_neighbour_max(frames: Seq<Seq<i32>>, now: int, b: int) -> int {
    let r = reference_hop(now);
    let m0 = max_int(SILENT_LEVEL as int, spread_level(frames, r, now, b - 10));
    let m1 = max_int(m0, spread_level(frames, r, now, b - 7));
    let m2 = max_int(m1, spread_level(frames, r, now, b - 4));
    let m3 = max_int(m2, spread_level(frames, r, now, b - 3));
    let m4 = max_int(m3, spread_level(frames, r, now, b + 1));
    let m5 = max_int(m4, spread_level(frames, r, now, b + 2));
    let m6 = max_int(m5, spread_level(frames, r, now, b + 5));
    max_int(m6, spread_level(frames, r, now, b + 8))
}

/// How many hops before `now` the `i`-th of the fourteen time neighbours lies.
pub open spec fn time_neighbour_back(i: int) -> int {
    if i == 0 {
        52
    } else if i == 1 {
        44
    } else if i == 2 {
        90
    } else if i == 3 {
        83
    } else if i == 4 {
        76
    } else if i == 5 {
        69
    } else if i == 6 {
        62
    } else if i == 7 {
        55
    } else if i == 8 {
        41
    } else if i == 9 {
        34
    } else if i == 10 {
        27
    } else if i == 11 {
        20
    } else if i == 12 {
        13
    } else {
        6
    }
}

/// `freq_neighbour_max` maxed with the spread level of bin `b - 1` in the
/// first `i` time neighbours.
pub open spec fn time_neighbour_max(frames: Seq<Seq<i32>>, now: int, b: int, i: int) -> int
    decreases i,
{
    if i <= 0 {
        freq_neighbour_max(frames, now, b)
    } else {
        max_int(
            time_neighbour_max(frames, now, b, i - 1),
            spread_level(frames, now - time_neighbour_back(i - 1), now, b - 1),
        )
    }
}

/// Whether bin `b` of the candidate frame is a peak once hop `now` is done.
pub open spec fn is_peak(frames: Seq<Seq<i32>>, now: int, b: int) -> bool {
    let p = raw_level(frames, candidate_hop(now), b);
    &&& p >= 0
    &&& p >= spread_level(frames, reference_hop(now), now, b - 1)
    &&& p > freq_neighbour_max(frames, now, b)
    &&& p > time_neighbour_max(frames, now, b, 14)
}

/// Parabolic sub-bin correction, in 1/64 of a bin, from the clamped levels of
/// a peak and of its two neighbours.
pub open spec fn peak_correction(peak: int, before: int, after: int) -> int {
    let curvature = 2 * peak - before - after;
    if curvature > 0 && after > before {
        (after - before) * 32 / curvature
    } else {
        0
    }
}

/// Position of the peak at bin `b`, in 1/64 of a bin.
pub open spec fn corrected_bin(frames: Seq<Seq<i32>>, now: int, b: int) -> int {
    let c = candidate_hop(now);
    b * 64 + peak_correction(
        clamp_level(raw_level(frames, c, b)),
        clamp_level(raw_level(frames, c, b - 1)),
        clamp_level(raw_level(frames, c, b + 1)),
    )
}

pub open spec fn peak_at(frames: Seq<Seq<i32>>, now: int, b: int) -> FrequencyPeak {
    FrequencyPeak {
        fft_pass_number: candidate_hop(now) as u32,
        peak_magnitude: (clamp_level(raw_level(frames, candidate_hop(now), b)) / 64) as u16,
        corrected_peak_frequency_bin: corrected_bin(frames, now, b) as u16,
        sample_rate_hz: SAMPLE_RATE_HZ,
    }
}

/// Peaks of `band` found among bins 10 to `hi - 1` once hop `now` is done.
pub open spec fn band_peaks_upto(frames: Seq<Seq<i32>>, now: int, band: FrequencyBand, hi: int) -> Seq<
    FrequencyPeak,
>
    decreases hi,
{
    if hi <= 10 {
        Seq::empty()
    } else {
        let prev = band_peaks_upto(frames, now, band, hi - 1);
        if is_peak(frames, now, hi - 1) && in_band(band, corrected_bin(frames, now, hi - 1)) {
            prev.push(peak_at(frames, now, hi - 1))
        } else {
            prev
        }
    }
}

/// Peaks of `band` found in a stream of frames: from the 46th hop on, each hop
/// adds the peaks of bins 10 to 1014 of the frame 45 hops back.
pub open spec fn signature_peaks(frames: Seq<Seq<i32>>, band: FrequencyBand) -> Seq<FrequencyPeak>
    decreases frames.len(),
{
    if frames.len() <= 45 {
        Seq::empty()
    } else {
        signature_peaks(frames.drop_last(), band) + band_peaks_upto(
            frames,
            frames.len() - 1,
            band,
            1015,
        )
    }
}

/// What the test of bin `b` adds to the signature once hop `now` is done.
pub open spec fn bin_result(frames: Seq<Seq<i32>>, now: int, b: int) -> Option<(FrequencyBand, FrequencyPeak)> {
    if is_peak(frames, now, b) {
        match spec_band_of_bin(corrected_bin(frames, now, b)) {
            Some(band) => Some((band, peak_at(frames, now, b))),
            None => None,
        }
    } else {
        None
    }
}

/// Frequency spreading of a single frame.
pub open spec fn freq_spread_of(frame: Seq<i32>, k: int) -> int {
    if k + 2 < BIN_COUNT {
        max_int(frame[k] as int, max_int(frame[k + 1] as int, frame[k + 2] as int))
    } else {
        frame[k] as int
    }
}

/// Spread level of hop `t` while the time spreading of hop `n` has reached
/// the first `stage` of the offsets 1, 3 and 6.
spec fn staged_level(frames: Seq<Seq<i32>>, n: int, t: int, k: int, stage: int) -> int {
    let d = n - t;
    if d == 0 || (d == 1 && stage >= 1) || (d == 3 && stage >= 2) || (d == 6 && stage >= 3) {
        spread_level(frames, t, n, k)
    } else {
        spread_level(frames, t, n - 1, k)
    }
}

proof fn lemma_extend_levels(frames: Seq<Seq<i32>>, frame: Seq<i32>, t: int, now: int, k: int)
    requires
        t <= now < frames.len(),
    ensures
        spread_level(frames.push(frame), t, now, k) == spread_level(frames, t, now, k),
{
    let f2 = frames.push(frame);
    assert forall|u: int, j: int| u <= now implies #[trigger] raw_level(f2, u, j) == raw_level(
        frames,
        u,
        j,
    ) by {
        if 0 <= u < frames.len() {
            assert(f2[u] == frames[u]);
        }
    }
    assert(freq_spread_level(f2, t, k) == freq_spread_level(frames, t, k));
    if t + 1 <= now {
        assert(freq_spread_level(f2, t + 1, k) == freq_spread_level(frames, t + 1, k));
    }
    if t + 3 <= now {
        assert(freq_spread_level(f2, t + 3, k) == freq_spread_level(frames, t + 3, k));
    }
    if t + 6 <= now {
        assert(freq_spread_level(f2, t + 6, k) == freq_spread_level(frames, t + 6, k));
    }
}

proof fn lemma_slots_apart(a: int, b: int)
    requires
        a != b,
        b - (RING_FRAMES as int) < a < b + (RING_FRAMES as int),
    ensures
        a % (RING_FRAMES as int) != b % (RING_FRAMES as int),
{
    if a < b {
        lemma_slots_distinct(a, b, RING_FRAMES as int);
    } else {
        lemma_slots_distinct(b, a, RING_FRAMES as int);
    }
}

proof fn lemma_valid_level(frames: Seq<Seq<i32>>, t: int, k: int)
    requires
        valid_frames(frames),
    ensures
        raw_level(frames, t, k) <= MAX_LEVEL,
{
    if 0 <= t < frames.len() && 0 <= k < frames[t].len() {
        assert(valid_frame(frames[t]));
    }
}

/// Frequency-domain spreading of one frame.
fn freq_spread(frame: &Vec<i32>) -> (g: Vec<i32>)
    requires
        frame@.len() == BIN_COUNT,
    ensures
        g@.len() == BIN_COUNT,
        forall|k: int| 0 <= k < BIN_COUNT ==> #[trigger] g@[k] == freq_spread_of(frame@, k),
{
    let mut g: Vec<i32> = Vec::with_capacity(BIN_COUNT);
    let mut k: usize = 0;
    while k < BIN_COUNT
        invariant
            k <= BIN_COUNT,
            frame@.len() == BIN_COUNT,
            g@.len() == k,
            forall|i: int| 0 <= i < k ==> #[trigger] g@[i] == freq_spread_of(frame@, i),
        decreases BIN_COUNT - k,
    {
        let mut m = frame[k];
        if k + 2 < BIN_COUNT {
            if frame[k + 1] > m {
                m = frame[k + 1];
            }
            if frame[k + 2] > m {
                m = frame[k + 2];
            }
        }
        g.push(m);
        k = k + 1;
    }
    g
}

/// Raises each bin of `row` to the matching bin of `g` where that is larger.
fn max_into_row(row: &mut Vec<i32>, g: &Vec<i32>)
    requires
        old(row)@.len() == BIN_COUNT,
        g@.len() == BIN_COUNT,
    ensures
        final(row)@.len() == BIN_COUNT,
        forall|k: int|
            0 <= k < BIN_COUNT ==> #[trigger] final(row)@[k] == max_int(
                old(row)@[k] as int,
                g@[k] as int,
            ),
{
    let mut k: usize = 0;
    while k < BIN_COUNT
        invariant
            k <= BIN_COUNT,
            g@.len() == BIN_COUNT,
            row@.len() == BIN_COUNT,
            forall|i: int|
                0 <= i < BIN_COUNT ==> #[trigger] row@[i] == if i < k {
                    max_int(old(row)@[i] as int, g@[i] as int)
                } else {
                    old(row)@[i] as int
                },
        decreases BIN_COUNT - k,
    {
        if g[k] > row[k] {
            row.set(k, g[k]);
        }
        k = k + 1;
    }
}

proof fn lemma_correction_bounds(x: int, c: int)
    requires
        0 < x <= c,
    ensures
        0 <= x * 32 / c <= 32,
{
    lemma_div_pos_is_pos(x * 32, c);
    lemma_div_is_ordered(x * 32, c * 32, c);
    lemma_div_multiples_vanish(32, c);
    assert(c * 32 == 32 * c);
}

/// Clamps a level at zero.
fn clamped(level: i32) -> (r: i64)
    ensures
        r == clamp_level(level as int),
{
    if level < 0 {
        0
    } else {
        level as i64
    }
}

/// The peak stored for bin `b`, from the levels of the bin and of its two
/// neighbours in the candidate frame.
fn peak_from_levels(b: usize, peak: i32, before: i32, after: i32, pass: u32) -> (r: FrequencyPeak)
    requires
        10 <= b <= 1014,
        0 <= peak <= MAX_LEVEL,
        before <= peak,
        after <= peak,
    ensures
        r.fft_pass_number == pass,
        r.peak_magnitude == clamp_level(peak as int) / 64,
        r.corrected_peak_frequency_bin == b * 64 + peak_correction(
            clamp_level(peak as int),
            clamp_level(before as int),
            clamp_level(after as int),
        ),
        r.sample_rate_hz == SAMPLE_RATE_HZ,
{
    let p = clamped(peak);
    let lo = clamped(before);
    let hi = clamped(after);
    let curvature: i64 = 2 * p - lo - hi;
    let mut correction: i64 = 0;
    if curvature > 0 && hi > lo {
        let spread: i64 = hi - lo;
        correction = spread * 32 / curvature;
        proof {
            lemma_correction_bounds(spread as int, curvature as int);
        }
    }
    let bin: u16 = (b as u16) * 64 + correction as u16;
    FrequencyPeak {
        fft_pass_number: pass,
        peak_magnitude: (p / 64) as u16,
        corrected_peak_frequency_bin: bin,
        sample_rate_hz: SAMPLE_RATE_HZ,
    }
}

proof fn lemma_slot(n: int, index: int, offset: int, size: int)
    requires
        size > 0,
        index == n % size,
    ensures
        (index + offset) % size == (n + offset) % size,
        (n + offset - size) % size == (n + offset) % size,
{
    lemma_add_mod_noop_right(offset, n, size);
    lemma_mod_sub_multiples_vanish(n + offset, size);
}

proof fn lemma_slots_distinct(t: int, n: int, size: int)
    requires
        size > 0,
        n - size < t < n,
    ensures
        t % size != n % size,
{
    lemma_mod_equivalence(n, t, size);
    lemma_small_mod((n - t) as nat, size as nat);
}

proof fn lemma_mod_once(x: int, m: int)
    requires
        m > 0,
        0 <= x < 2 * m,
    ensures
        x % m == if x < m {
            x
        } else {
            x - m
        },
{
    if x < m {
        lemma_small_mod(x as nat, m as nat);
    } else {
        lemma_mod_sub_multiples_vanish(x, m);
        lemma_small_mod((x - m) as nat, m as nat);
    }
}

/// Copies one hop of samples into the sample ring at `at`.
fn write_hop(ring: &mut Vec<i16>, at: usize, hop: &[i16])
    requires
        old(ring)@.len() == WINDOW_SIZE,
        at + HOP_SIZE <= WINDOW_SIZE,
        hop@.len() == HOP_SIZE,
    ensures
        final(ring)@.len() == WINDOW_SIZE,
        forall|q: int|
            0 <= q < WINDOW_SIZE ==> #[trigger] final(ring)@[q] == if at <= q < at + HOP_SIZE {
                hop@[q - at]
            } else {
                old(ring)@[q]
            },
{
    let mut j: usize = 0;
    while j < HOP_SIZE
        invariant
            j <= HOP_SIZE,
            at + HOP_SIZE <= WINDOW_SIZE,
            hop@.len() == HOP_SIZE,
            ring@.len() == WINDOW_SIZE,
            forall|q: int|
                0 <= q < WINDOW_SIZE ==> #[trigger] ring@[q] == if at <= q < at + j {
                    hop@[q - at]
                } else {
                    old(ring)@[q]
                },
        decreases HOP_SIZE - j,
    {
        ring.set(at + j, hop[j]);
        j = j + 1;
    }
}

/// Reads the sample ring oldest first, starting at `start`.
fn read_window(ring: &Vec<i16>, start: usize) -> (w: Vec<i16>)
    requires
        ring@.len() == WINDOW_SIZE,
        start < WINDOW_SIZE,
    ensures
        w@.len() == WINDOW_SIZE,
        forall|j: int|
            0 <= j < WINDOW_SIZE ==> #[trigger] w@[j] == ring@[(start + j) % (WINDOW_SIZE as int)],
{
    let mut w: Vec<i16> = Vec::with_capacity(WINDOW_SIZE);
    let mut j: usize = 0;
    while j < WINDOW_SIZE
        invariant
            j <= WINDOW_SIZE,
            start < WINDOW_SIZE,
            ring@.len() == WINDOW_SIZE,
            w@.len() == j,
            forall|i: int|
                0 <= i < j ==> #[trigger] w@[i] == ring@[(start + i) % (WINDOW_SIZE as int)],
        decreases WINDOW_SIZE - j,
    {
        w.push(ring[(start + j) % WINDOW_SIZE]);
        j = j + 1;
    }
    w
}

proof fn lemma_stage_step(
    before: Seq<Vec<i32>>,
    after: Seq<Vec<i32>>,
    frames: Seq<Seq<i32>>,
    n: int,
    d: int,
    stage: int,
    g: Seq<i32>,
)
    requires
        frames.len() == n + 1,
        before.len() == RING_FRAMES,
        after.len() == RING_FRAMES,
        (d == 1 && stage == 0) || (d == 3 && stage == 1) || (d == 6 && stage == 2),
        forall|t: int, k: int|
            n - 255 <= t < n && 0 <= k < BIN_COUNT ==> #[trigger] before[t % (
            RING_FRAMES as int)]@[k] == staged_level(frames, n, t, k, stage),
        forall|i: int|
            0 <= i < RING_FRAMES && i != (n - d) % (RING_FRAMES as int) ==> #[trigger] after[i]
                == before[i],
        forall|k: int|
            0 <= k < BIN_COUNT ==> #[trigger] after[(n - d) % (RING_FRAMES as int)]@[k] == max_int(
                before[(n - d) % (RING_FRAMES as int)]@[k] as int,
                g[k] as int,
            ),
        forall|k: int| 0 <= k < BIN_COUNT ==> #[trigger] g[k] == freq_spread_level(frames, n, k),
    ensures
        forall|t: int, k: int|
            n - 255 <= t < n && 0 <= k < BIN_COUNT ==> #[trigger] after[t % (
            RING_FRAMES as int)]@[k] == staged_level(frames, n, t, k, stage + 1),
{
    assert forall|t: int, k: int| n - 255 <= t < n && 0 <= k < BIN_COUNT implies #[trigger] after[t
        % (RING_FRAMES as int)]@[k] == staged_level(frames, n, t, k, stage + 1) by {
        lemma_mod_bound(t, RING_FRAMES as int);
        if t == n - d {
            assert(before[t % (RING_FRAMES as int)]@[k] == staged_level(frames, n, t, k, stage));
        } else {
            lemma_slots_apart(t, n - d);
            assert(before[t % (RING_FRAMES as int)]@[k] == staged_level(frames, n, t, k, stage));
        }
    }
}

/// Time-domain spreading into one earlier frame of the spread ring.
fn spread_into_slot(rows: &mut Vec<Vec<i32>>, slot: usize, g: &Vec<i32>)
    requires
        slot < old(rows)@.len(),
        old(rows)@[slot as int]@.len() == BIN_COUNT,
        g@.len() == BIN_COUNT,
    ensures
        final(rows)@.len() == old(rows)@.len(),
        forall|i: int|
            0 <= i < old(rows)@.len() && i != slot ==> #[trigger] final(rows)@[i] == old(rows)@[i],
        final(rows)@[slot as int]@.len() == BIN_COUNT,
        forall|k: int|
            0 <= k < BIN_COUNT ==> #[trigger] final(rows)@[slot as int]@[k] == max_int(
                old(rows)@[slot as int]@[k] as int,
                g@[k] as int,
            ),
{
    let mut row: Vec<i32> = Vec::new();
    std::mem::swap(&mut row, &mut rows[slot]);
    max_into_row(&mut row, g);
    rows.set(slot, row);
}

fn max_level(a: i32, b: i32) -> (r: i32)
    ensures
        r == max_int(a as int, b as int),
{
    if a >= b {
        a
    } else {
        b
    }
}

fn time_back(i: usize) -> (r: usize)
    requires
        i < 14,
    ensures
        r == time_neighbour_back(i as int),
{
    if i == 0 {
        52
    } else if i == 1 {
        44
    } else if i == 2 {
        90
    } else if i == 3 {
        83
    } else if i == 4 {
        76
    } else if i == 5 {
        69
    } else if i == 6 {
        62
    } else if i == 7 {
        55
    } else if i == 8 {
        41
    } else if i == 9 {
        34
    } else if i == 10 {
        27
    } else if i == 11 {
        20
    } else if i == 12 {
        13
    } else {
        6
    }
}

/// Computes the signature of a mono 16 kHz PCM stream, hop by hop.
pub struct SignatureGenerator {
    samples: Vec<i16>,
    samples_index: usize,
    spectra: Vec<Vec<i32>>,
    spread: Vec<Vec<i32>>,
    frame_index: usize,
    num_spread_ffts_done: u32,
    signature: DecodedSignature,
    stream: Ghost<Seq<i16>>,
    frames: Ghost<Seq<Seq<i32>>>,
}

impl SignatureGenerator {
    /// The samples pushed so far.
    pub closed spec fn stream(&self) -> Seq<i16> {
        self.stream@
    }

    /// The spectral frames pushed so far, one per hop.
    pub closed spec fn frames(&self) -> Seq<Seq<i32>> {
        self.frames@
    }

    /// The signature built so far.
    pub closed spec fn signature(&self) -> DecodedSignature {
        self.signature
    }

    pub closed spec fn samples_wf(&self) -> bool {
        &&& self.samples@.len() == WINDOW_SIZE
        &&& self.samples_index < WINDOW_SIZE
        &&& self.samples_index % HOP_SIZE == 0
        &&& (self.stream@.len() as int) % (WINDOW_SIZE as int) == self.samples_index as int
        &&& forall|j: int|
            0 <= j < WINDOW_SIZE ==> #[trigger] self.samples@[(self.samples_index + j) % (
            WINDOW_SIZE as int)] == window_of(self.stream@)[j]
    }

    pub closed spec fn rings_wf(&self) -> bool {
        &&& self.samples_wf()
        &&& self.spectra@.len() == RING_FRAMES
        &&& self.spread@.len() == RING_FRAMES
        &&& forall|s: int|
            0 <= s < RING_FRAMES ==> #[trigger] self.spectra@[s]@.len() == BIN_COUNT
        &&& forall|s: int| 0 <= s < RING_FRAMES ==> #[trigger] self.spread@[s]@.len() == BIN_COUNT
        &&& self.num_spread_ffts_done == self.frames@.len()
        &&& self.frame_index as int == (self.frames@.len() as int) % (RING_FRAMES as int)
        &&& valid_frames(self.frames@)
        &&& forall|t: int, k: int|
            self.frames@.len() - RING_FRAMES <= t < self.frames@.len() && 0 <= k < BIN_COUNT
                ==> #[trigger] self.spectra@[t % (RING_FRAMES as int)]@[k] == raw_level(
                self.frames@,
                t,
                k,
            )
        &&& forall|t: int, k: int|
            self.frames@.len() - RING_FRAMES <= t < self.frames@.len() && 0 <= k < BIN_COUNT
                ==> #[trigger] self.spread@[t % (RING_FRAMES as int)]@[k] == spread_level(
                self.frames@,
                t,
                self.frames@.len() - 1,
                k,
            )
    }

    /// The rings hold the last 256 frames and their spread versions, and the
    /// signature holds the peaks of every frame pushed so far.
    pub closed spec fn wf(&self) -> bool {
        &&& self.rings_wf()
        &&& self.signature.sample_rate_hz == SAMPLE_RATE_HZ
        &&& self.signature.peaks_in_their_bands()
        &&& forall|band: FrequencyBand|
            #[trigger] self.signature.band_peaks(band) == signature_peaks(self.frames@, band)
    }

    /// A generator with all rings cleared, for an input of `number_samples` samples.
    pub fn new(number_samples: u32) -> (r: SignatureGenerator)
        ensures
            r.wf(),
            r.stream().len() == 0,
            r.frames().len() == 0,
            r.signature().sample_rate_hz == SAMPLE_RATE_HZ,
            r.signature().number_samples == number_samples,
            forall|band: FrequencyBand| #[trigger] r.signature().band_peaks(band).len() == 0,
    {
        let mut spectra: Vec<Vec<i32>> = Vec::with_capacity(RING_FRAMES);
        let mut spread: Vec<Vec<i32>> = Vec::with_capacity(RING_FRAMES);
        let mut s: usize = 0;
        while s < RING_FRAMES
            invariant
                s <= RING_FRAMES,
                spectra@.len() == s,
                spread@.len() == s,
                forall|i: int, k: int|
                    0 <= i < s && 0 <= k < BIN_COUNT ==> #[trigger] spectra@[i]@[k] == SILENT_LEVEL,
                forall|i: int, k: int|
                    0 <= i < s && 0 <= k < BIN_COUNT ==> #[trigger] spread@[i]@[k] == SILENT_LEVEL,
                forall|i: int| 0 <= i < s ==> #[trigger] spectra@[i]@.len() == BIN_COUNT,
                forall|i: int| 0 <= i < s ==> #[trigger] spread@[i]@.len() == BIN_COUNT,
            decreases RING_FRAMES - s,
        {
            spectra.push(vec![SILENT_LEVEL; BIN_COUNT]);
            spread.push(vec![SILENT_LEVEL; BIN_COUNT]);
            s = s + 1;
        }
        let r = SignatureGenerator {
            samples: vec![0i16; WINDOW_SIZE],
            samples_index: 0,
            spectra,
            spread,
            frame_index: 0,
            num_spread_ffts_done: 0,
            signature: DecodedSignature::new(SAMPLE_RATE_HZ, number_samples),
            stream: Ghost(Seq::empty()),
            frames: Ghost(Seq::empty()),
        };
        assert forall|j: int| 0 <= j < WINDOW_SIZE implies #[trigger] r.samples@[(r.samples_index
            + j) % (WINDOW_SIZE as int)] == window_of(r.stream@)[j] by {
            lemma_small_mod(j as nat, WINDOW_SIZE as nat);
        }
        assert forall|t: int, k: int|
            r.frames@.len() - RING_FRAMES <= t < r.frames@.len() && 0 <= k < BIN_COUNT implies #[trigger] r.spread@[t
            % (RING_FRAMES as int)]@[k] == spread_level(r.frames@, t, r.frames@.len() - 1, k) by {
            lemma_mod_bound(t, RING_FRAMES as int);
            assert(freq_spread_level(r.frames@, t, k) == SILENT_LEVEL);
            assert(freq_spread_level(r.frames@, t + 1, k) == SILENT_LEVEL);
            assert(freq_spread_level(r.frames@, t + 3, k) == SILENT_LEVEL);
            assert(freq_spread_level(r.frames@, t + 6, k) == SILENT_LEVEL);
        }
        assert forall|t: int, k: int|
            r.frames@.len() - RING_FRAMES <= t < r.frames@.len() && 0 <= k < BIN_COUNT implies #[trigger] r.spectra@[t
            % (RING_FRAMES as int)]@[k] == raw_level(r.frames@, t, k) by {
            lemma_mod_bound(t, RING_FRAMES as int);
        }
        assert forall|band: FrequencyBand|
            #[trigger] r.signature.band_peaks(band) == signature_peaks(r.frames@, band) by {
            assert(r.signature.band_peaks(band) =~= Seq::empty());
        }
        r
    }

    /// Adds one hop of samples to the sample ring and returns the analysis
    /// window: the last 2048 samples of the stream, oldest first.
    pub fn push_samples(&mut self, hop: &[i16]) -> (window: Vec<i16>)
        requires
            old(self).wf(),
            hop@.len() == HOP_SIZE,
        ensures
            final(self).wf(),
            final(self).stream() == old(self).stream() + hop@,
            final(self).frames() == old(self).frames(),
            final(self).signature() == old(self).signature(),
            window@ == window_of(final(self).stream()),
            window@ == old(self).window().subrange(HOP_SIZE as int, WINDOW_SIZE as int) + hop@,
    {
        let ghost old_samples = self.samples@;
        let ghost old_stream = self.stream@;
        let at = self.samples_index;
        write_hop(&mut self.samples, at, hop);
        self.samples_index = (at + HOP_SIZE) % WINDOW_SIZE;
        self.stream = Ghost(old_stream + hop@);
        let window = read_window(&self.samples, self.samples_index);
        proof {
            let n = old_stream.len() as int;
            let w = WINDOW_SIZE as int;
            lemma_mod_once(at + HOP_SIZE, w);
            lemma_add_mod_noop_right(HOP_SIZE as int, n, w);
            assert forall|j: int| 0 <= j < WINDOW_SIZE implies #[trigger] self.samples@[(
            self.samples_index + j) % w] == window_of(self.stream@)[j] by {
                lemma_slot(at + HOP_SIZE, self.samples_index as int, j, w);
                lemma_mod_once(at + HOP_SIZE + j, w);
                if j < WINDOW_SIZE - HOP_SIZE {
                    assert(old_samples[(at + (j + HOP_SIZE)) % w] == window_of(old_stream)[j
                        + HOP_SIZE]);
                    lemma_mod_once(at + (j + HOP_SIZE), w);
                }
            }
            assert(window@ =~= window_of(self.stream@));
            assert(window@ =~= old(self).window().subrange(HOP_SIZE as int, WINDOW_SIZE as int)
                + hop@) by {
                assert forall|j: int| 0 <= j < WINDOW_SIZE - HOP_SIZE implies #[trigger] old(
                    self,
                ).window()[j + HOP_SIZE] == window_of(old_stream)[j + HOP_SIZE] by {
                    assert(old_samples[(at + (j + HOP_SIZE)) % w] == window_of(old_stream)[j
                        + HOP_SIZE]);
                }
            }
        }
        window
    }

    /// Stores a frame in the spectral ring, spreads it, and advances the rings.
    fn store_frame(&mut self, frame: Vec<i32>)
        requires
            old(self).rings_wf(),
            valid_frame(frame@),
            old(self).frames@.len() < u32::MAX,
        ensures
            final(self).rings_wf(),
            final(self).frames@ == old(self).frames@.push(frame@),
            final(self).stream@ == old(self).stream@,
            final(self).signature == old(self).signature,
    {
        let ghost n = self.frames@.len() as int;
        let ghost frames = self.frames@;
        let ghost fr2 = frames.push(frame@);
        let ghost size = RING_FRAMES as int;
        let idx = self.frame_index;
        let g = freq_spread(&frame);
        proof {
            assert forall|k: int| 0 <= k < BIN_COUNT implies #[trigger] g@[k] == freq_spread_level(
                fr2,
                n,
                k,
            ) by {
                assert(fr2[n] == frame@);
            }
            assert forall|t: int, k: int| n - 255 <= t < n && 0 <= k < BIN_COUNT implies #[trigger] self.spread@[t
                % size]@[k] == staged_level(fr2, n, t, k, 0) by {
                lemma_extend_levels(frames, frame@, t, n - 1, k);
            }
        }
        let ghost s0 = self.spread@;
        let slot1 = (idx + RING_FRAMES - 1) % RING_FRAMES;
        proof {
            lemma_slot(n, idx as int, size - 1, size);
            lemma_mod_bound(n - 1, size);
        }
        spread_into_slot(&mut self.spread, slot1, &g);
        proof {
            lemma_stage_step(s0, self.spread@, fr2, n, 1, 0, g@);
        }
        let ghost s1 = self.spread@;
        let slot3 = (idx + RING_FRAMES - 3) % RING_FRAMES;
        proof {
            lemma_slot(n, idx as int, size - 3, size);
            lemma_mod_bound(n - 3, size);
        }
        spread_into_slot(&mut self.spread, slot3, &g);
        proof {
            lemma_stage_step(s1, self.spread@, fr2, n, 3, 1, g@);
        }
        let ghost s2 = self.spread@;
        let slot6 = (idx + RING_FRAMES - 6) % RING_FRAMES;
        proof {
            lemma_slot(n, idx as int, size - 6, size);
            lemma_mod_bound(n - 6, size);
        }
        spread_into_slot(&mut self.spread, slot6, &g);
        proof {
            lemma_stage_step(s2, self.spread@, fr2, n, 6, 2, g@);
        }
        let ghost s3 = self.spread@;
        let ghost r0 = self.spectra@;
        self.spread.set(idx, g);
        self.spectra.set(idx, frame);
        self.frame_index = (idx + 1) % RING_FRAMES;
        self.num_spread_ffts_done = self.num_spread_ffts_done + 1;
        self.frames = Ghost(fr2);
        proof {
            lemma_add_mod_noop_right(1, n, size);
            assert forall|s: int| 0 <= s < RING_FRAMES implies #[trigger] self.spread@[s]@.len()
                == BIN_COUNT by {
                if s != idx && s != slot1 && s != slot3 && s != slot6 {
                    assert(self.spread@[s] == old(self).spread@[s]);
                }
            }
            assert forall|s: int| 0 <= s < RING_FRAMES implies #[trigger] self.spectra@[s]@.len()
                == BIN_COUNT by {
                if s != idx {
                    assert(self.spectra@[s] == old(self).spectra@[s]);
                }
            }
            assert forall|t: int, k: int|
                fr2.len() - RING_FRAMES <= t < fr2.len() && 0 <= k < BIN_COUNT implies #[trigger] self.spread@[t
                % size]@[k] == spread_level(fr2, t, fr2.len() - 1, k) by {
                if t != n {
                    lemma_slots_distinct(t, n, size);
                    assert(s3[t % size]@[k] == staged_level(fr2, n, t, k, 3));
                }
            }
            assert forall|t: int, k: int|
                fr2.len() - RING_FRAMES <= t < fr2.len() && 0 <= k < BIN_COUNT implies #[trigger] self.spectra@[t
                % size]@[k] == raw_level(fr2, t, k) by {
                if t != n {
                    lemma_slots_distinct(t, n, size);
                    assert(r0[t % size]@[k] == raw_level(frames, t, k));
                    if 0 <= t {
                        assert(fr2[t] == frames[t]);
                    }
                } else {
                    assert(fr2[n] == frame@);
                }
            }
            assert forall|t: int| 0 <= t < fr2.len() implies valid_frame(#[trigger] fr2[t]) by {
                if t < n {
                    assert(fr2[t] == frames[t]);
                }
            }
        }
    }

    /// Level of bin `k` of the frame `back` hops before the newest.
    fn raw_at(&self, back: usize, k: usize) -> (r: i32)
        requires
            self.rings_wf(),
            back < RING_FRAMES,
            k < BIN_COUNT,
        ensures
            r == raw_level(self.frames@, self.frames@.len() - 1 - back, k as int),
    {
        let slot = (self.frame_index + RING_FRAMES - 1 - back) % RING_FRAMES;
        proof {
            let n = self.frames@.len() as int;
            lemma_slot(n, self.frame_index as int, RING_FRAMES - 1 - back, RING_FRAMES as int);
        }
        self.spectra[slot][k]
    }

    /// Spread level of bin `k` of the frame `back` hops before the newest.
    fn spread_at(&self, back: usize, k: usize) -> (r: i32)
        requires
            self.rings_wf(),
            back < RING_FRAMES,
            k < BIN_COUNT,
        ensures
            r == spread_level(
                self.frames@,
                self.frames@.len() - 1 - back,
                self.frames@.len() - 1,
                k as int,
            ),
    {
        let slot = (self.frame_index + RING_FRAMES - 1 - back) % RING_FRAMES;
        proof {
            let n = self.frames@.len() as int;
            lemma_slot(n, self.frame_index as int, RING_FRAMES - 1 - back, RING_FRAMES as int);
        }
        self.spread[slot][k]
    }

    /// Tests bin `b` of the candidate frame, 45 hops before the newest.
    fn check_bin(&self, b: usize) -> (r: Option<(FrequencyBand, FrequencyPeak)>)
        requires
            self.rings_wf(),
            self.frames@.len() >= RECOGNITION_LAG,
            10 <= b <= 1014,
        ensures
            r == bin_result(self.frames@, self.frames@.len() - 1, b as int),
    {
        let ghost frames = self.frames@;
        let ghost now = frames.len() - 1;
        let p = self.raw_at(45, b);
        if p < 0 {
            return None;
        }
        let reference = self.spread_at(48, b - 1);
        if p < reference {
            return None;
        }
        let mut m: i32 = SILENT_LEVEL;
        m = max_level(m, self.spread_at(48, b - 10));
        m = max_level(m, self.spread_at(48, b - 7));
        m = max_level(m, self.spread_at(48, b - 4));
        m = max_level(m, self.spread_at(48, b - 3));
        m = max_level(m, self.spread_at(48, b + 1));
        m = max_level(m, self.spread_at(48, b + 2));
        m = max_level(m, self.spread_at(48, b + 5));
        m = max_level(m, self.spread_at(48, b + 8));
        assert(m == freq_neighbour_max(frames, now, b as int));
        if p <= m {
            return None;
        }
        let mut i: usize = 0;
        while i < 14
            invariant
                self.rings_wf(),
                frames == self.frames@,
                now == frames.len() - 1,
                10 <= b <= 1014,
                i <= 14,
                m == time_neighbour_max(frames, now, b as int, i as int),
            decreases 14 - i,
        {
            m = max_level(m, self.spread_at(time_back(i), b - 1));
            i = i + 1;
        }
        if p <= m {
            return None;
        }
        let before = self.raw_at(45, b - 1);
        let after = self.raw_at(45, b + 1);
        proof {
            lemma_valid_level(frames, now - 45, b as int);
        }
        let peak = peak_from_levels(b, p, before, after, self.num_spread_ffts_done - 46);
        assert(peak == peak_at(frames, now, b as int));
        match band_of_bin(peak.corrected_peak_frequency_bin) {
            Some(band) => Some((band, peak)),
            None => None,
        }
    }

    /// Runs peak recognition on the candidate frame and files the peaks found.
    fn recognize(&mut self)
        requires
            old(self).rings_wf(),
            old(self).frames@.len() >= RECOGNITION_LAG,
            old(self).signature.peaks_in_their_bands(),
        ensures
            final(self).rings_wf(),
            final(self).frames@ == old(self).frames@,
            final(self).stream@ == old(self).stream@,
            final(self).signature.sample_rate_hz == old(self).signature.sample_rate_hz,
            final(self).signature.number_samples == old(self).signature.number_samples,
            final(self).signature.peaks_in_their_bands(),
            forall|band: FrequencyBand|
                #[trigger] final(self).signature.band_peaks(band) == old(self).signature.band_peaks(
                    band,
                ) + band_peaks_upto(old(self).frames@, old(self).frames@.len() - 1, band, 1015),
    {
        let ghost frames = self.frames@;
        let ghost now = frames.len() - 1;
        let mut b: usize = 10;
        while b <= 1014
            invariant
                self.rings_wf(),
                frames == self.frames@,
                now == frames.len() - 1,
                frames.len() >= RECOGNITION_LAG,
                10 <= b <= 1015,
                self.stream@ == old(self).stream@,
                self.signature.sample_rate_hz == old(self).signature.sample_rate_hz,
                self.signature.number_samples == old(self).signature.number_samples,
                self.signature.peaks_in_their_bands(),
                forall|band: FrequencyBand|
                    #[trigger] self.signature.band_peaks(band) == old(self).signature.band_peaks(
                        band,
                    ) + band_peaks_upto(frames, now, band, b as int),
            decreases 1015 - b,
        {
            let found = self.check_bin(b);
            let ghost sig0 = self.signature;
            match found {
                Some((band, peak)) => {
                    self.signature.push_peak(band, peak);
                    proof {
                        crate::signature::lemma_bands_partition(
                            corrected_bin(frames, now, b as int),
                            band,
                        );
                        assert forall|other: FrequencyBand|
                            #[trigger] self.signature.band_peaks(other) == old(
                                self,
                            ).signature.band_peaks(other) + band_peaks_upto(
                                frames,
                                now,
                                other,
                                b + 1,
                            ) by {
                            crate::signature::lemma_bands_partition(
                                corrected_bin(frames, now, b as int),
                                other,
                            );
                            if other == band {
                                assert(self.signature.band_peaks(other) =~= old(
                                    self,
                                ).signature.band_peaks(other) + band_peaks_upto(
                                    frames,
                                    now,
                                    other,
                                    b + 1,
                                ));
                            }
                        }
                        assert forall|bd: FrequencyBand, j: int|
                            0 <= j < self.signature.band_peaks(bd).len() implies in_band(
                            bd,
                            #[trigger] self.signature.band_peaks(
                                bd,
                            )[j].corrected_peak_frequency_bin as int,
                        ) by {
                            if bd == band && j == sig0.band_peaks(bd).len() {
                            } else {
                                assert(self.signature.band_peaks(bd)[j] == sig0.band_peaks(bd)[j]);
                            }
                        }
                    }
                },
                None => {
                    proof {
                        assert forall|other: FrequencyBand|
                            #[trigger] self.signature.band_peaks(other) == old(
                                self,
                            ).signature.band_peaks(other) + band_peaks_upto(
                                frames,
                                now,
                                other,
                                b + 1,
                            ) by {
                            crate::signature::lemma_bands_partition(
                                corrected_bin(frames, now, b as int),
                                other,
                            );
                        }
                    }
                },
            }
            b = b + 1;
        }
    }

    /// Adds the spectral frame of the newest window (see the module notes on
    /// levels), spreads it, and, from the 46th hop on, files the peaks of the
    /// frame 45 hops back.
    pub fn push_spectrum(&mut self, frame: Vec<i32>)
        requires
            old(self).wf(),
            valid_frame(frame@),
            old(self).frames().len() < u32::MAX,
        ensures
            final(self).wf(),
            final(self).frames() == old(self).frames().push(frame@),
            final(self).stream() == old(self).stream(),
            final(self).signature().sample_rate_hz == old(self).signature().sample_rate_hz,
            final(self).signature().number_samples == old(self).signature().number_samples,
            forall|band: FrequencyBand|
                #[trigger] final(self).signature().band_peaks(band) == signature_peaks(
                    final(self).frames(),
                    band,
                ),
    {
        let ghost frames = self.frames@;
        self.store_frame(frame);
        proof {
            assert(self.frames@.drop_last() =~= frames);
        }
        if self.num_spread_ffts_done >= RECOGNITION_LAG {
            self.recognize();
        }
    }

    /// The signature built from the frames pushed so far.
    pub fn into_signature(self) -> (r: DecodedSignature)
        requires
            self.wf(),
        ensures
            r == self.signature(),
            r.sample_rate_hz == SAMPLE_RATE_HZ,
            r.peaks_in_their_bands(),
            forall|band: FrequencyBand|
                #[trigger] r.band_peaks(band) == signature_peaks(self.frames(), band),
    {
        self.signature
    }

    /// Number of hops done so far.
    pub fn hops_done(&self) -> (r: u32)
        requires
            self.wf(),
        ensures
            r == self.frames().len(),
    {
        self.num_spread_ffts_done
    }

    /// The analysis window: the last 2048 samples, oldest first.
    pub closed spec fn window(&self) -> Seq<i16> {
        Seq::new(
            WINDOW_SIZE as nat,
            |j: int| self.samples@[(self.samples_index + j) % (WINDOW_SIZE as int)],
        )
    }
}

/// Fewer than 46 frames give no peaks. In particular an input shorter than
/// 2048 samples, which makes at most 15 hops, gives an empty signature.
pub proof fn lemma_short_input_has_no_peaks(frames: Seq<Seq<i32>>, band: FrequencyBand)
    requires
        frames.len() < RECOGNITION_LAG,
    ensures
        signature_peaks(frames, band).len() == 0,
{
}

/// The spectral pipeline is deterministic: two generators fed the same frames
/// hold the same signature peaks, and two fed the same samples hand out the
/// same analysis window.
pub proof fn lemma_deterministic(a: SignatureGenerator, b: SignatureGenerator)
    requires
        a.wf(),
        b.wf(),
        a.frames() == b.frames(),
        a.stream() == b.stream(),
    ensures
        forall|band: FrequencyBand| #[trigger] a.signature().band_peaks(band) == b.signature().band_peaks(band),
        window_of(a.stream()) == window_of(b.stream()),
        a.window() == b.window(),
{
    assert(a.window() =~= window_of(a.stream()));
    assert(b.window() =~= window_of(b.stream()));
}

} // verus!
