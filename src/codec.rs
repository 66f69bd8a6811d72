//! Binary layout of a signature, all integers little-endian:
//!
//! ```text
//! magic u32 | sample_rate_hz u32 | number_samples u32 | band * 4
//! band = count u32 | peak * count
//! peak = fft_pass_number u32 | peak_magnitude u16 | corrected_peak_frequency_bin u16 | sample_rate_hz u32
//! ```
//!
//! Bands come in order of frequency. The layout carries every field, so
//! decoding an encoding gives back the signature it was made from.

use vstd::prelude::*;
use crate::signature::{DecodedSignature, FrequencyBand, FrequencyPeak};

verus! {

/// First four bytes of every encoded signature.
pub const SIGNATURE_MAGIC: u32 = 0x5349_4731;

pub open spec fn u32_bytes(x: u32) -> Seq<u8> {
    seq![(x & 0xff) as u8, ((x >> 8u32) & 0xff) as u8, ((x >> 16u32) & 0xff) as u8, ((x >> 24u32) & 0xff) as u8]
}

pub open spec fn u16_bytes(x: u16) -> Seq<u8> {
    seq![(x & 0xff) as u8, ((x >> 8u16) & 0xff) as u8]
}

pub open spec fn read_u32(b: Seq<u8>, at: int) -> u32 {
    (b[at] as u32) | ((b[at + 1] as u32) << 8u32) | ((b[at + 2] as u32) << 16u32) | ((b[at + 3] as u32)
        << 24u32)
}

pub open spec fn read_u16(b: Seq<u8>, at: int) -> u16 {
    (b[at] as u16) | ((b[at + 1] as u16) << 8u16)
}

pub open spec fn peak_bytes(p: FrequencyPeak) -> Seq<u8> {
    u32_bytes(p.fft_pass_number) + u16_bytes(p.peak_magnitude) + u16_bytes(
        p.corrected_peak_frequency_bin,
    ) + u32_bytes(p.sample_rate_hz)
}

pub open spec fn read_peak(b: Seq<u8>, at: int) -> FrequencyPeak {
    FrequencyPeak {
        fft_pass_number: read_u32(b, at),
        peak_magnitude: read_u16(b, at + 4),
        corrected_peak_frequency_bin: read_u16(b, at + 6),
        sample_rate_hz: read_u32(b, at + 8),
    }
}

pub open spec fn peaks_bytes(ps: Seq<FrequencyPeak>) -> Seq<u8>
    decreases ps.len(),
{
    if ps.len() == 0 {
        Seq::empty()
    } else {
        peaks_bytes(ps.drop_last()) + peak_bytes(ps.last())
    }
}

pub open spec fn band_bytes(ps: Seq<FrequencyPeak>) -> Seq<u8> {
    u32_bytes(ps.len() as u32) + peaks_bytes(ps)
}

/// The encoding of a signature.
pub open spec fn spec_encode(sig: DecodedSignature) -> Seq<u8> {
    u32_bytes(SIGNATURE_MAGIC) + u32_bytes(sig.sample_rate_hz) + u32_bytes(sig.number_samples)
        + band_bytes(sig.band_peaks(FrequencyBand::_250_520)) + band_bytes(
        sig.band_peaks(FrequencyBand::_520_1450),
    ) + band_bytes(sig.band_peaks(FrequencyBand::_1450_3500)) + band_bytes(
        sig.band_peaks(FrequencyBand::_3500_5500),
    )
}

/// A signature can be encoded when each band's peak count fits the count field.
pub open spec fn encodable(sig: DecodedSignature) -> bool {
    forall|band: FrequencyBand| #[trigger] sig.band_peaks(band).len() <= u32::MAX
}

/// Tests whether a signature can be encoded.
pub fn encodable_lengths(sig: &DecodedSignature) -> (r: bool)
    ensures
        r == encodable(*sig),
{
    let fits = sig.peaks_250_520.len() as u64 <= u32::MAX as u64 && sig.peaks_520_1450.len() as u64
        <= u32::MAX as u64 && sig.peaks_1450_3500.len() as u64 <= u32::MAX as u64
        && sig.peaks_3500_5500.len() as u64 <= u32::MAX as u64;
    proof {
        if fits {
            assert forall|band: FrequencyBand| #[trigger] sig.band_peaks(band).len() <= u32::MAX by {
                match band {
                    FrequencyBand::_250_520 => {},
                    FrequencyBand::_520_1450 => {},
                    FrequencyBand::_1450_3500 => {},
                    FrequencyBand::_3500_5500 => {},
                }
            }
        } else {
            assert(!(sig.band_peaks(FrequencyBand::_250_520).len() <= u32::MAX && sig.band_peaks(
                FrequencyBand::_520_1450,
            ).len() <= u32::MAX && sig.band_peaks(FrequencyBand::_1450_3500).len() <= u32::MAX
                && sig.band_peaks(FrequencyBand::_3500_5500).len() <= u32::MAX));
        }
    }
    fits
}

/// Where the band that starts at `at` ends.
pub open spec fn band_end(b: Seq<u8>, at: int) -> int {
    at + 4 + 12 * read_u32(b, at)
}

pub open spec fn band_fits(b: Seq<u8>, at: int) -> bool {
    at + 4 <= b.len() && band_end(b, at) <= b.len()
}

/// The peaks of the band that starts at `at`.
pub open spec fn band_decoded(b: Seq<u8>, at: int) -> Seq<FrequencyPeak> {
    Seq::new(read_u32(b, at) as nat, |j: int| read_peak(b, at + 4 + 12 * j))
}

/// Whether `b` follows the layout: header, four bands, nothing after.
pub open spec fn well_formed(b: Seq<u8>) -> bool {
    let e1 = band_end(b, 12);
    let e2 = band_end(b, e1);
    let e3 = band_end(b, e2);
    &&& b.len() >= 12
    &&& read_u32(b, 0) == SIGNATURE_MAGIC
    &&& band_fits(b, 12)
    &&& band_fits(b, e1)
    &&& band_fits(b, e2)
    &&& band_fits(b, e3)
    &&& band_end(b, e3) == b.len()
}

/// The signature that well-formed bytes stand for.
pub open spec fn decoded_from(b: Seq<u8>, sig: DecodedSignature) -> bool {
    let e1 = band_end(b, 12);
    let e2 = band_end(b, e1);
    let e3 = band_end(b, e2);
    &&& sig.sample_rate_hz == read_u32(b, 4)
    &&& sig.number_samples == read_u32(b, 8)
    &&& sig.band_peaks(FrequencyBand::_250_520) == band_decoded(b, 12)
    &&& sig.band_peaks(FrequencyBand::_520_1450) == band_decoded(b, e1)
    &&& sig.band_peaks(FrequencyBand::_1450_3500) == band_decoded(b, e2)
    &&& sig.band_peaks(FrequencyBand::_3500_5500) == band_decoded(b, e3)
}

/// Two signatures with the same fields and the same peaks, band by band.
pub open spec fn same_signature(a: DecodedSignature, b: DecodedSignature) -> bool {
    &&& a.sample_rate_hz == b.sample_rate_hz
    &&& a.number_samples == b.number_samples
    &&& forall|band: FrequencyBand| #[trigger] a.band_peaks(band) == b.band_peaks(band)
}

proof fn lemma_u32_bytes(x: u32)
    ensures
        u32_bytes(x).len() == 4,
        read_u32(u32_bytes(x), 0) == x,
{
    let b = u32_bytes(x);
    let b0 = (x & 0xff) as u8;
    let b1 = ((x >> 8u32) & 0xff) as u8;
    let b2 = ((x >> 16u32) & 0xff) as u8;
    let b3 = ((x >> 24u32) & 0xff) as u8;
    assert(b[0] == b0 && b[1] == b1 && b[2] == b2 && b[3] == b3);
    assert((b0 as u32) | ((b1 as u32) << 8u32) | ((b2 as u32) << 16u32) | ((b3 as u32) << 24u32)
        == x) by (bit_vector)
        requires
            b0 == (x & 0xff) as u8,
            b1 == ((x >> 8u32) & 0xff) as u8,
            b2 == ((x >> 16u32) & 0xff) as u8,
            b3 == ((x >> 24u32) & 0xff) as u8,
    ;
}

proof fn lemma_u16_bytes(x: u16)
    ensures
        u16_bytes(x).len() == 2,
        read_u16(u16_bytes(x), 0) == x,
{
    let b = u16_bytes(x);
    let b0 = (x & 0xff) as u8;
    let b1 = ((x >> 8u16) & 0xff) as u8;
    assert(b[0] == b0 && b[1] == b1);
    assert((b0 as u16) | ((b1 as u16) << 8u16) == x) by (bit_vector)
        requires
            b0 == (x & 0xff) as u8,
            b1 == ((x >> 8u16) & 0xff) as u8,
    ;
}

/// Reading a peak back from where its bytes stand.
proof fn lemma_read_peak(big: Seq<u8>, at: int, p: FrequencyPeak)
    requires
        0 <= at,
        at + 12 <= big.len(),
        forall|x: int| 0 <= x < 12 ==> big[at + x] == #[trigger] peak_bytes(p)[x],
    ensures
        read_peak(big, at) == p,
{
    let pb = peak_bytes(p);
    lemma_u32_bytes(p.fft_pass_number);
    lemma_u16_bytes(p.peak_magnitude);
    lemma_u16_bytes(p.corrected_peak_frequency_bin);
    lemma_u32_bytes(p.sample_rate_hz);
    assert(pb[0] == big[at] && pb[1] == big[at + 1] && pb[2] == big[at + 2] && pb[3] == big[at + 3]);
    assert(pb[4] == big[at + 4] && pb[5] == big[at + 5] && pb[6] == big[at + 6] && pb[7] == big[at + 7]);
    assert(pb[8] == big[at + 8] && pb[9] == big[at + 9] && pb[10] == big[at + 10] && pb[11] == big[at + 11]);
    assert(read_u32(big, at) == read_u32(u32_bytes(p.fft_pass_number), 0));
    assert(read_u16(big, at + 4) == read_u16(u16_bytes(p.peak_magnitude), 0));
    assert(read_u16(big, at + 6) == read_u16(u16_bytes(p.corrected_peak_frequency_bin), 0));
    assert(read_u32(big, at + 8) == read_u32(u32_bytes(p.sample_rate_hz), 0));
}

proof fn lemma_peaks_bytes(ps: Seq<FrequencyPeak>)
    ensures
        peaks_bytes(ps).len() == 12 * ps.len(),
        forall|i: int, x: int|
            0 <= i < ps.len() && 0 <= x < 12 ==> #[trigger] peaks_bytes(ps)[12 * i + x] == peak_bytes(
                ps[i],
            )[x],
    decreases ps.len(),
{
    if ps.len() > 0 {
        let init = ps.drop_last();
        lemma_peaks_bytes(init);
        lemma_u32_bytes(0);
        lemma_u16_bytes(0);
        assert forall|i: int, x: int| 0 <= i < ps.len() && 0 <= x < 12 implies #[trigger] peaks_bytes(
            ps,
        )[12 * i + x] == peak_bytes(ps[i])[x] by {
            assert(peak_bytes(ps.last()).len() == 12);
            if i < ps.len() - 1 {
                assert(ps[i] == init[i]);
                assert(peaks_bytes(init)[12 * i + x] == peak_bytes(init[i])[x]);
            }
        }
        assert(peak_bytes(ps.last()).len() == 12);
    }
}

/// The band that `band_bytes(ps)` puts at `at` decodes to `ps`.
proof fn lemma_read_band(big: Seq<u8>, at: int, ps: Seq<FrequencyPeak>)
    requires
        0 <= at,
        ps.len() <= u32::MAX,
        at + band_bytes(ps).len() <= big.len(),
        forall|x: int| 0 <= x < band_bytes(ps).len() ==> big[at + x] == #[trigger] band_bytes(ps)[x],
    ensures
        band_bytes(ps).len() == 4 + 12 * ps.len(),
        read_u32(big, at) == ps.len(),
        band_end(big, at) == at + band_bytes(ps).len(),
        band_fits(big, at),
        band_decoded(big, at) == ps,
{
    let bb = band_bytes(ps);
    lemma_u32_bytes(ps.len() as u32);
    lemma_peaks_bytes(ps);
    assert(bb[0] == big[at] && bb[1] == big[at + 1] && bb[2] == big[at + 2] && bb[3] == big[at + 3]);
    assert(read_u32(big, at) == read_u32(u32_bytes(ps.len() as u32), 0));
    assert forall|j: int| 0 <= j < ps.len() implies #[trigger] band_decoded(big, at)[j] == ps[j] by {
        assert forall|x: int| 0 <= x < 12 implies big[at + 4 + 12 * j + x] == #[trigger] peak_bytes(
            ps[j],
        )[x] by {
            assert(big[at + (4 + 12 * j + x)] == bb[4 + 12 * j + x]);
            assert(peaks_bytes(ps)[12 * j + x] == peak_bytes(ps[j])[x]);
        }
        lemma_read_peak(big, at + 4 + 12 * j, ps[j]);
    }
    assert(band_decoded(big, at) =~= ps);
}

/// Decoding an encoding gives back the signature it was made from: the
/// encoding is well formed, and any signature it decodes to has the same
/// sample rate, sample count and peaks, band by band, field by field.
pub proof fn lemma_round_trip(sig: DecodedSignature, back: DecodedSignature)
    requires
        encodable(sig),
    ensures
        well_formed(spec_encode(sig)),
        decoded_from(spec_encode(sig), back) <==> same_signature(back, sig),
{
    let enc = spec_encode(sig);
    let peaks_a = sig.band_peaks(FrequencyBand::_250_520);
    let peaks_b = sig.band_peaks(FrequencyBand::_520_1450);
    let peaks_c = sig.band_peaks(FrequencyBand::_1450_3500);
    let peaks_d = sig.band_peaks(FrequencyBand::_3500_5500);
    assert(peaks_a.len() <= u32::MAX && peaks_b.len() <= u32::MAX && peaks_c.len() <= u32::MAX && peaks_d.len()
        <= u32::MAX);
    lemma_u32_bytes(SIGNATURE_MAGIC);
    lemma_u32_bytes(sig.sample_rate_hz);
    lemma_u32_bytes(sig.number_samples);
    lemma_u32_bytes(peaks_a.len() as u32);
    lemma_u32_bytes(peaks_b.len() as u32);
    lemma_u32_bytes(peaks_c.len() as u32);
    lemma_u32_bytes(peaks_d.len() as u32);
    lemma_peaks_bytes(peaks_a);
    lemma_peaks_bytes(peaks_b);
    lemma_peaks_bytes(peaks_c);
    lemma_peaks_bytes(peaks_d);
    let h = u32_bytes(SIGNATURE_MAGIC) + u32_bytes(sig.sample_rate_hz) + u32_bytes(sig.number_samples);
    let b1 = band_bytes(peaks_a);
    let b2 = band_bytes(peaks_b);
    let b3 = band_bytes(peaks_c);
    let b4 = band_bytes(peaks_d);
    assert(enc == h + b1 + b2 + b3 + b4);
    let s1 = 12int;
    let s2 = s1 + b1.len();
    let s3 = s2 + b2.len();
    let s4 = s3 + b3.len();
    assert(enc.len() == s4 + b4.len());
    assert(enc[0] == u32_bytes(SIGNATURE_MAGIC)[0] && enc[1] == u32_bytes(SIGNATURE_MAGIC)[1]
        && enc[2] == u32_bytes(SIGNATURE_MAGIC)[2] && enc[3] == u32_bytes(SIGNATURE_MAGIC)[3]);
    assert(read_u32(enc, 0) == read_u32(u32_bytes(SIGNATURE_MAGIC), 0));
    assert(enc[4] == u32_bytes(sig.sample_rate_hz)[0] && enc[5] == u32_bytes(sig.sample_rate_hz)[1]
        && enc[6] == u32_bytes(sig.sample_rate_hz)[2] && enc[7] == u32_bytes(sig.sample_rate_hz)[3]);
    assert(read_u32(enc, 4) == read_u32(u32_bytes(sig.sample_rate_hz), 0));
    assert(enc[8] == u32_bytes(sig.number_samples)[0] && enc[9] == u32_bytes(sig.number_samples)[1]
        && enc[10] == u32_bytes(sig.number_samples)[2] && enc[11] == u32_bytes(
        sig.number_samples,
    )[3]);
    assert(read_u32(enc, 8) == read_u32(u32_bytes(sig.number_samples), 0));
    assert forall|x: int| 0 <= x < b1.len() implies enc[s1 + x] == #[trigger] b1[x] by {}
    lemma_read_band(enc, s1, peaks_a);
    assert forall|x: int| 0 <= x < b2.len() implies enc[s2 + x] == #[trigger] b2[x] by {}
    lemma_read_band(enc, s2, peaks_b);
    assert forall|x: int| 0 <= x < b3.len() implies enc[s3 + x] == #[trigger] b3[x] by {}
    lemma_read_band(enc, s3, peaks_c);
    assert forall|x: int| 0 <= x < b4.len() implies enc[s4 + x] == #[trigger] b4[x] by {}
    lemma_read_band(enc, s4, peaks_d);
    if same_signature(back, sig) {
        assert(back.band_peaks(FrequencyBand::_250_520) == peaks_a);
        assert(back.band_peaks(FrequencyBand::_520_1450) == peaks_b);
        assert(back.band_peaks(FrequencyBand::_1450_3500) == peaks_c);
        assert(back.band_peaks(FrequencyBand::_3500_5500) == peaks_d);
    }
    if decoded_from(enc, back) {
        assert forall|band: FrequencyBand| #[trigger] back.band_peaks(band) == sig.band_peaks(
            band,
        ) by {
            match band {
                FrequencyBand::_250_520 => {},
                FrequencyBand::_520_1450 => {},
                FrequencyBand::_1450_3500 => {},
                FrequencyBand::_3500_5500 => {},
            }
        }
    }
}

fn push_u32(out: &mut Vec<u8>, x: u32)
    ensures
        final(out)@ == old(out)@ + u32_bytes(x),
{
    out.push((x & 0xff) as u8);
    out.push(((x >> 8u32) & 0xff) as u8);
    out.push(((x >> 16u32) & 0xff) as u8);
    out.push(((x >> 24u32) & 0xff) as u8);
    assert(out@ =~= old(out)@ + u32_bytes(x));
}

fn push_u16(out: &mut Vec<u8>, x: u16)
    ensures
        final(out)@ == old(out)@ + u16_bytes(x),
{
    out.push((x & 0xff) as u8);
    out.push(((x >> 8u16) & 0xff) as u8);
    assert(out@ =~= old(out)@ + u16_bytes(x));
}

fn push_peak(out: &mut Vec<u8>, p: &FrequencyPeak)
    ensures
        final(out)@ == old(out)@ + peak_bytes(*p),
{
    push_u32(out, p.fft_pass_number);
    push_u16(out, p.peak_magnitude);
    push_u16(out, p.corrected_peak_frequency_bin);
    push_u32(out, p.sample_rate_hz);
    assert(out@ =~= old(out)@ + peak_bytes(*p));
}

fn push_band(out: &mut Vec<u8>, ps: &Vec<FrequencyPeak>)
    requires
        ps@.len() <= u32::MAX,
    ensures
        final(out)@ == old(out)@ + band_bytes(ps@),
{
    push_u32(out, ps.len() as u32);
    let ghost start = out@;
    let mut i: usize = 0;
    while i < ps.len()
        invariant
            i <= ps@.len(),
            out@ == start + peaks_bytes(ps@.take(i as int)),
        decreases ps@.len() - i,
    {
        push_peak(out, &ps[i]);
        proof {
            let next = ps@.take(i + 1);
            assert(next.drop_last() =~= ps@.take(i as int));
            assert(next.last() == ps@[i as int]);
        }
        i = i + 1;
    }
    assert(ps@.take(ps@.len() as int) =~= ps@);
    assert(out@ =~= old(out)@ + band_bytes(ps@));
}

/// Encodes a signature in the layout described at the top of this module.
pub fn encode(sig: &DecodedSignature) -> (r: Vec<u8>)
    requires
        encodable(*sig),
    ensures
        r@ == spec_encode(*sig),
{
    assert(sig.band_peaks(FrequencyBand::_250_520).len() <= u32::MAX);
    assert(sig.band_peaks(FrequencyBand::_520_1450).len() <= u32::MAX);
    assert(sig.band_peaks(FrequencyBand::_1450_3500).len() <= u32::MAX);
    assert(sig.band_peaks(FrequencyBand::_3500_5500).len() <= u32::MAX);
    let mut out: Vec<u8> = Vec::new();
    push_u32(&mut out, SIGNATURE_MAGIC);
    push_u32(&mut out, sig.sample_rate_hz);
    push_u32(&mut out, sig.number_samples);
    push_band(&mut out, &sig.peaks_250_520);
    push_band(&mut out, &sig.peaks_520_1450);
    push_band(&mut out, &sig.peaks_1450_3500);
    push_band(&mut out, &sig.peaks_3500_5500);
    out
}

fn read_u32_at(b: &[u8], at: usize) -> (r: u32)
    requires
        b@.len() <= usize::MAX,
        at + 4 <= b@.len(),
    ensures
        r == read_u32(b@, at as int),
{
    (b[at] as u32) | ((b[at + 1] as u32) << 8u32) | ((b[at + 2] as u32) << 16u32) | ((b[at + 3] as u32)
        << 24u32)
}

fn read_u16_at(b: &[u8], at: usize) -> (r: u16)
    requires
        b@.len() <= usize::MAX,
        at + 2 <= b@.len(),
    ensures
        r == read_u16(b@, at as int),
{
    (b[at] as u16) | ((b[at + 1] as u16) << 8u16)
}

fn read_peak_at(b: &[u8], at: usize) -> (r: FrequencyPeak)
    requires
        b@.len() <= usize::MAX,
        at + 12 <= b@.len(),
    ensures
        r == read_peak(b@, at as int),
{
    FrequencyPeak {
        fft_pass_number: read_u32_at(b, at),
        peak_magnitude: read_u16_at(b, at + 4),
        corrected_peak_frequency_bin: read_u16_at(b, at + 6),
        sample_rate_hz: read_u32_at(b, at + 8),
    }
}

/// Decodes the band that starts at `at`; gives its peaks and where it ends.
fn decode_band(b: &[u8], at: usize) -> (r: Option<(Vec<FrequencyPeak>, usize)>)
    requires
        b@.len() <= usize::MAX,
    ensures
        r is Some <==> band_fits(b@, at as int),
        r matches Some((ps, end)) ==> ps@ == band_decoded(b@, at as int) && end == band_end(
            b@,
            at as int,
        ),
{
    if at > b.len() || b.len() - at < 4 {
        return None;
    }
    let count = read_u32_at(b, at);
    let remaining: usize = b.len() - at - 4;
    if 12 * (count as u64) > remaining as u64 {
        return None;
    }
    let end: usize = at + 4 + 12 * (count as usize);
    let mut ps: Vec<FrequencyPeak> = Vec::new();
    let mut j: usize = 0;
    while j < count as usize
        invariant
            b@.len() <= usize::MAX,
            at + 4 + 12 * (count as int) <= b@.len(),
            count == read_u32(b@, at as int),
            j <= count,
            ps@.len() == j,
            forall|i: int| 0 <= i < j ==> #[trigger] ps@[i] == read_peak(b@, at + 4 + 12 * i),
        decreases count - j,
    {
        assert(at + 4 + 12 * j + 12 <= b@.len()) by (nonlinear_arith)
            requires
                at + 4 + 12 * (count as int) <= b@.len(),
                j < count,
        ;
        ps.push(read_peak_at(b, at + 4 + 12 * j));
        j = j + 1;
    }
    assert(ps@ =~= band_decoded(b@, at as int));
    Some((ps, end))
}

/// Decodes bytes in the layout described at the top of this module; `None`
/// for bytes that do not follow it.
pub fn decode(b: &[u8]) -> (r: Option<DecodedSignature>)
    ensures
        r is Some <==> well_formed(b@),
        r matches Some(sig) ==> decoded_from(b@, sig),
{
    if b.len() < 12 {
        return None;
    }
    if read_u32_at(b, 0) != SIGNATURE_MAGIC {
        return None;
    }
    let sample_rate_hz = read_u32_at(b, 4);
    let number_samples = read_u32_at(b, 8);
    let (peaks_a, e1) = match decode_band(b, 12) {
        Some(x) => x,
        None => return None,
    };
    let (peaks_b, e2) = match decode_band(b, e1) {
        Some(x) => x,
        None => return None,
    };
    let (peaks_c, e3) = match decode_band(b, e2) {
        Some(x) => x,
        None => return None,
    };
    let (peaks_d, e4) = match decode_band(b, e3) {
        Some(x) => x,
        None => return None,
    };
    if e4 != b.len() {
        return None;
    }
    Some(
        DecodedSignature {
            sample_rate_hz,
            number_samples,
            peaks_250_520: peaks_a,
            peaks_520_1450: peaks_b,
            peaks_1450_3500: peaks_c,
            peaks_3500_5500: peaks_d,
        },
    )
}

/// The text that base64 gives for some bytes.
pub uninterp spec fn base64_of(bytes: Seq<u8>) -> Seq<char>;

/// Relies on `base64::Engine::encode` with the `STANDARD` engine (standard
/// alphabet, padded): its text depends on the bytes alone.
#[verifier::external_body]
fn base64_encode(bytes: &Vec<u8>) -> (r: String)
    ensures
        r@ == base64_of(bytes@),
{
    base64::Engine::encode(&base64::engine::general_purpose::STANDARD, bytes)
}

/// Prefix of the data URI that carries a signature.
pub open spec fn uri_prefix() -> Seq<char> {
    "data:audio/vnd.shazam.sig;base64,"@
}

/// The data URI for base64 text of an encoded signature.
pub fn signature_uri(encoded: &str) -> (r: String)
    ensures
        r@ == uri_prefix() + encoded@,
{
    let mut r = String::from_str("data:audio/vnd.shazam.sig;base64,");
    r.append(encoded);
    r
}

/// The signature as a data URI: its encoding in base64 after a fixed prefix.
pub fn encode_to_uri(sig: &DecodedSignature) -> (r: String)
    requires
        encodable(*sig),
    ensures
        r@ == uri_prefix() + base64_of(spec_encode(*sig)),
{
    let bytes = encode(sig);
    let text = base64_encode(&bytes);
    signature_uri(text.as_str())
}

} // verus!
