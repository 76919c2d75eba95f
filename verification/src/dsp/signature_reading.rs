use vstd::prelude::*;
use crate::dsp::signature_format::{
    band_block, band_peak_bytes, bands_body, crc32_checksum, lead_in, encoded_len, encoded_signature,
    le_u16_seq, le_u32_seq, lemma_signature_layout, lemma_tail_header_fields, padding_len,
    passes_ordered, peak_record, sample_rate_id, samples_field, signature_body, signature_tail,
    tail_header, zeros, DecodedSignature, FrequencyPeak,
};

verus! {

/// The little-endian 32-bit number stored at `at`.
pub open spec fn u32_at(bytes: Seq<u8>, at: int) -> int {
    bytes[at] as int + bytes[at + 1] as int * 0x100 + bytes[at + 2] as int * 0x10000
        + bytes[at + 3] as int * 0x1000000
}

/// The little-endian 16-bit number stored at `at`.
pub open spec fn u16_at(bytes: Seq<u8>, at: int) -> int {
    bytes[at] as int + bytes[at + 1] as int * 0x100
}

/// Reads peak records back, `prev` being the pass number that the first
/// record is relative to: a jump marker `0xff` carries the absolute pass
/// number, else the first byte is the gap to the pass before.
pub open spec fn read_peaks(bytes: Seq<u8>, prev: int) -> Seq<FrequencyPeak>
    decreases bytes.len(),
{
    if bytes.len() == 0 {
        seq![]
    } else if bytes[0] == 0xffu8 {
        if bytes.len() < 10 {
            seq![]
        } else {
            let pass = u32_at(bytes, 1) + bytes[5] as int;
            let p = FrequencyPeak {
                fft_pass_number: pass as u32,
                peak_magnitude: u16_at(bytes, 6) as u16,
                corrected_peak_frequency_bin: u16_at(bytes, 8) as u16,
            };
            seq![p] + read_peaks(bytes.skip(10), pass)
        }
    } else if bytes.len() < 5 {
        seq![]
    } else {
        let pass = prev + bytes[0] as int;
        let p = FrequencyPeak {
            fft_pass_number: pass as u32,
            peak_magnitude: u16_at(bytes, 1) as u16,
            corrected_peak_frequency_bin: u16_at(bytes, 3) as u16,
        };
        seq![p] + read_peaks(bytes.skip(5), pass)
    }
}

/// Reads band blocks back into `bands`: each block names its band by its
/// tag, gives the length of its records, the records and the padding.
pub open spec fn read_blocks(bytes: Seq<u8>, bands: Seq<Seq<FrequencyPeak>>) -> Seq<
    Seq<FrequencyPeak>,
>
    decreases bytes.len(),
{
    if bytes.len() < 8 {
        bands
    } else {
        let b = u32_at(bytes, 0) - 0x60030040;
        let n = u32_at(bytes, 4);
        let end = 8 + n + padding_len(n as nat);
        if 0 <= b < bands.len() && end <= bytes.len() {
            read_blocks(bytes.skip(end), bands.update(b, read_peaks(bytes.subrange(8, 8 + n), 0)))
        } else {
            bands
        }
    }
}

/// The sample rate that a header's rate identifier stands for.
pub open spec fn rate_of_id(id: int) -> u32 {
    if id == 1 {
        8000
    } else if id == 2 {
        11025
    } else if id == 4 {
        32000
    } else if id == 5 {
        44100
    } else if id == 6 {
        48000
    } else {
        16000
    }
}

/// The sample rates that have an identifier of their own.
pub open spec fn known_rate(rate: u32) -> bool {
    rate == 8000 || rate == 11025 || rate == 16000 || rate == 32000 || rate == 44100 || rate
        == 48000
}

/// Reads a binary signature back: the sample rate from its identifier at
/// byte 28, the sample count from the field at byte 40 less 0.24 s worth of
/// the rate (as the format computes it), and the peaks of the four bands from the blocks after byte 56.
pub open spec fn read_signature(bytes: Seq<u8>) -> (u32, u32, Seq<Seq<FrequencyPeak>>) {
    let rate = rate_of_id(u32_at(bytes, 28) / 0x8000000);
    (
        rate,
        (u32_at(bytes, 40) - lead_in(rate)) as u32,
        read_blocks(bytes.skip(56), seq![seq![], seq![], seq![], seq![]]),
    )
}

proof fn lemma_le_u32_value(n: u32)
    ensures
        u32_at(le_u32_seq(n), 0) == n,
{
    let b0 = (n & 0xff) as u8;
    let b1 = ((n >> 8) & 0xff) as u8;
    let b2 = ((n >> 16) & 0xff) as u8;
    let b3 = ((n >> 24) & 0xff) as u8;
    assert(b0 as u64 + b1 as u64 * 0x100 + b2 as u64 * 0x10000 + b3 as u64 * 0x1000000 == n as u64)
        by (bit_vector)
        requires
            b0 == (n & 0xff) as u8,
            b1 == ((n >> 8) & 0xff) as u8,
            b2 == ((n >> 16) & 0xff) as u8,
            b3 == ((n >> 24) & 0xff) as u8,
    ;
}

proof fn lemma_le_u16_value(n: u16)
    ensures
        u16_at(le_u16_seq(n), 0) == n,
{
    let b0 = (n & 0xff) as u8;
    let b1 = ((n >> 8) & 0xff) as u8;
    assert(b0 as u32 + b1 as u32 * 0x100 == n as u32) by (bit_vector)
        requires
            b0 == (n & 0xff) as u8,
            b1 == ((n >> 8) & 0xff) as u8,
    ;
}

/// A number stored at `at` reads back as itself.
proof fn lemma_u32_stored(bytes: Seq<u8>, at: int, n: u32)
    requires
        0 <= at,
        at + 4 <= bytes.len(),
        bytes.subrange(at, at + 4) == le_u32_seq(n),
    ensures
        u32_at(bytes, at) == n,
{
    lemma_le_u32_value(n);
    let s = le_u32_seq(n);
    assert(bytes[at] == s[0] && bytes[at + 1] == s[1] && bytes[at + 2] == s[2] && bytes[at + 3]
        == s[3]) by {
        assert(bytes.subrange(at, at + 4)[0] == bytes[at]);
        assert(bytes.subrange(at, at + 4)[1] == bytes[at + 1]);
        assert(bytes.subrange(at, at + 4)[2] == bytes[at + 2]);
        assert(bytes.subrange(at, at + 4)[3] == bytes[at + 3]);
    }
}

/// A 16-bit number stored at `at` reads back as itself.
proof fn lemma_u16_stored(bytes: Seq<u8>, at: int, n: u16)
    requires
        0 <= at,
        at + 2 <= bytes.len(),
        bytes.subrange(at, at + 2) == le_u16_seq(n),
    ensures
        u16_at(bytes, at) == n,
{
    lemma_le_u16_value(n);
    let s = le_u16_seq(n);
    assert(bytes[at] == s[0] && bytes[at + 1] == s[1]) by {
        assert(bytes.subrange(at, at + 2)[0] == bytes[at]);
        assert(bytes.subrange(at, at + 2)[1] == bytes[at + 1]);
    }
}

/// The peak records of `peaks`, front to back, the first relative to `prev`.
pub open spec fn records_from(peaks: Seq<FrequencyPeak>, prev: u32) -> Seq<u8>
    decreases peaks.len(),
{
    if peaks.len() == 0 {
        seq![]
    } else {
        peak_record(peaks[0], prev) + records_from(peaks.drop_first(), peaks[0].fft_pass_number)
    }
}

proof fn lemma_records_from_push(s: Seq<FrequencyPeak>, x: FrequencyPeak, prev: u32)
    ensures
        records_from(s.push(x), prev) == records_from(s, prev) + peak_record(
            x,
            if s.len() == 0 {
                prev
            } else {
                s.last().fft_pass_number
            },
        ),
    decreases s.len(),
{
    if s.len() == 0 {
        assert(s.push(x).drop_first() =~= Seq::<FrequencyPeak>::empty());
        assert(s.push(x)[0] == x);
        assert(records_from(Seq::<FrequencyPeak>::empty(), x.fft_pass_number) == Seq::<u8>::empty());
        assert(records_from(s.push(x), prev) =~= peak_record(x, prev));
        assert(records_from(s, prev) + peak_record(x, prev) =~= peak_record(x, prev));
    } else {
        assert(s.push(x).drop_first() =~= s.drop_first().push(x));
        lemma_records_from_push(s.drop_first(), x, s[0].fft_pass_number);
        if s.len() > 1 {
            assert(s.drop_first().last() == s.last());
        }
        assert(records_from(s.push(x), prev) =~= records_from(s, prev) + peak_record(
            x,
            s.last().fft_pass_number,
        ));
    }
}

proof fn lemma_band_bytes_front_to_back(peaks: Seq<FrequencyPeak>)
    ensures
        band_peak_bytes(peaks) == records_from(peaks, 0),
    decreases peaks.len(),
{
    if peaks.len() > 0 {
        let dl = peaks.drop_last();
        lemma_band_bytes_front_to_back(dl);
        lemma_records_from_push(dl, peaks.last(), 0);
        assert(dl.push(peaks.last()) =~= peaks);
    }
}

/// Peak records read back as the peaks they were written from.
proof fn lemma_read_records(peaks: Seq<FrequencyPeak>, prev: u32)
    requires
        passes_ordered(peaks),
        peaks.len() > 0 ==> prev <= peaks[0].fft_pass_number,
    ensures
        read_peaks(records_from(peaks, prev), prev as int) == peaks,
    decreases peaks.len(),
{
    if peaks.len() > 0 {
        let p = peaks[0];
        let rest = peaks.drop_first();
        let tail = records_from(rest, p.fft_pass_number);
        let rec = peak_record(p, prev);
        let bytes = rec + tail;
        assert(passes_ordered(rest));
        if rest.len() > 0 {
            assert(peaks[0].fft_pass_number <= peaks[1].fft_pass_number);
        }
        lemma_read_records(rest, p.fft_pass_number);
        if p.fft_pass_number - prev >= 255 {
            assert(rec.len() == 10);
            assert(bytes[0] == 0xffu8);
            assert(bytes.subrange(1, 5) =~= le_u32_seq(p.fft_pass_number));
            assert(bytes[5] == 0u8);
            assert(bytes.subrange(6, 8) =~= le_u16_seq(p.peak_magnitude));
            assert(bytes.subrange(8, 10) =~= le_u16_seq(p.corrected_peak_frequency_bin));
            lemma_u32_stored(bytes, 1, p.fft_pass_number);
            lemma_u16_stored(bytes, 6, p.peak_magnitude);
            lemma_u16_stored(bytes, 8, p.corrected_peak_frequency_bin);
            assert(bytes.skip(10) =~= tail);
        } else {
            assert(rec.len() == 5);
            assert(bytes[0] == (p.fft_pass_number - prev) as u8);
            assert(bytes[0] != 0xffu8);
            assert(bytes.subrange(1, 3) =~= le_u16_seq(p.peak_magnitude));
            assert(bytes.subrange(3, 5) =~= le_u16_seq(p.corrected_peak_frequency_bin));
            lemma_u16_stored(bytes, 1, p.peak_magnitude);
            lemma_u16_stored(bytes, 3, p.corrected_peak_frequency_bin);
            assert(bytes.skip(5) =~= tail);
        }
        assert(read_peaks(bytes, prev as int) =~= seq![p] + rest);
        assert(seq![p] + rest =~= peaks);
    }
}

/// One band block reads back into its band; an absent block (a band
/// without peaks) leaves the band empty.
proof fn lemma_read_block(
    i: int,
    p: Seq<FrequencyPeak>,
    rest: Seq<u8>,
    acc: Seq<Seq<FrequencyPeak>>,
)
    requires
        0 <= i < acc.len(),
        i < 4,
        acc[i].len() == 0,
        passes_ordered(p),
        band_peak_bytes(p).len() <= u32::MAX,
    ensures
        read_blocks(band_block(i, p) + rest, acc) == read_blocks(rest, acc.update(i, p)),
{
    if p.len() == 0 {
        assert(band_block(i, p) + rest =~= rest);
        assert(acc.update(i, p) =~= acc) by {
            assert(acc[i] =~= p);
        }
    } else {
        let records = band_peak_bytes(p);
        let n = records.len();
        let blk = band_block(i, p);
        let bytes = blk + rest;
        let tag = (0x60030040 + i) as u32;
        assert(blk =~= le_u32_seq(tag) + le_u32_seq(n as u32) + records + zeros(padding_len(n)));
        assert(bytes.subrange(0, 4) =~= le_u32_seq(tag));
        assert(bytes.subrange(4, 8) =~= le_u32_seq(n as u32));
        lemma_u32_stored(bytes, 0, tag);
        lemma_u32_stored(bytes, 4, n as u32);
        let end = 8 + n + padding_len(n);
        assert(bytes.subrange(8, 8 + n as int) =~= records);
        assert(bytes.skip(end as int) =~= rest);
        lemma_band_bytes_front_to_back(p);
        lemma_read_records(p, 0);
    }
}

proof fn lemma_block_holds_records(i: int, p: Seq<FrequencyPeak>)
    ensures
        p.len() > 0 ==> band_peak_bytes(p).len() <= band_block(i, p).len(),
{
}

/// Four band blocks, one after the other, read back as their bands.
#[verifier::spinoff_prover]
proof fn lemma_read_four_blocks(bands: Seq<Seq<FrequencyPeak>>)
    requires
        bands.len() == 4,
        passes_ordered(bands[0]),
        passes_ordered(bands[1]),
        passes_ordered(bands[2]),
        passes_ordered(bands[3]),
        band_block(0, bands[0]).len() <= u32::MAX,
        band_block(1, bands[1]).len() <= u32::MAX,
        band_block(2, bands[2]).len() <= u32::MAX,
        band_block(3, bands[3]).len() <= u32::MAX,
    ensures
        read_blocks(
            band_block(0, bands[0]) + (band_block(1, bands[1]) + (band_block(2, bands[2]) + (
            band_block(3, bands[3]) + Seq::<u8>::empty()))),
            seq![seq![], seq![], seq![], seq![]],
        ) == bands,
{
    let b1 = band_block(1, bands[1]);
    let b2 = band_block(2, bands[2]);
    let b3 = band_block(3, bands[3]);
    lemma_block_holds_records(0, bands[0]);
    lemma_block_holds_records(1, bands[1]);
    lemma_block_holds_records(2, bands[2]);
    lemma_block_holds_records(3, bands[3]);
    let e: Seq<Seq<FrequencyPeak>> = seq![seq![], seq![], seq![], seq![]];
    let a1 = e.update(0, bands[0]);
    let a2 = a1.update(1, bands[1]);
    let a3 = a2.update(2, bands[2]);
    lemma_read_block(0, bands[0], b1 + (b2 + (b3 + Seq::<u8>::empty())), e);
    lemma_read_block(1, bands[1], b2 + (b3 + Seq::<u8>::empty()), a1);
    lemma_read_block(2, bands[2], b3 + Seq::<u8>::empty(), a2);
    lemma_read_block(3, bands[3], Seq::<u8>::empty(), a3);
    assert(a3.update(3, bands[3]) =~= bands);
}

/// The band blocks of an encodable signature read back as its bands.
#[verifier::spinoff_prover]
proof fn lemma_read_body(sig: DecodedSignature)
    requires
        sig.encodable(),
        encoded_len(sig) <= u32::MAX,
    ensures
        read_blocks(signature_body(sig), seq![seq![], seq![], seq![], seq![]]) == sig.bands(),
{
    let bands = sig.bands();
    let b0 = band_block(0, bands[0]);
    let b1 = band_block(1, bands[1]);
    let b2 = band_block(2, bands[2]);
    let b3 = band_block(3, bands[3]);
    assert(bands_body(bands, 1) == bands_body(bands, 0) + b0);
    assert(bands_body(bands, 2) == bands_body(bands, 1) + b1);
    assert(bands_body(bands, 3) == bands_body(bands, 2) + b2);
    assert(bands_body(bands, 4) == bands_body(bands, 3) + b3);
    assert(signature_body(sig) =~= b0 + (b1 + (b2 + (b3 + Seq::<u8>::empty()))));
    assert(passes_ordered(bands[0]));
    assert(passes_ordered(bands[1]));
    assert(passes_ordered(bands[2]));
    assert(passes_ordered(bands[3]));
    lemma_read_four_blocks(bands);
}

/// Law of the binary format: reading an encoding back gives the signature
/// it was written from, for every signature that encodes (peaks ordered by
/// pass number within each band, 32-bit fields large enough) at a sample
/// rate that has an identifier of its own.
#[verifier::spinoff_prover]
pub proof fn lemma_signature_round_trip(sig: DecodedSignature)
    requires
        sig.encodable(),
        encoded_len(sig) <= u32::MAX,
        known_rate(sig.sample_rate_hz),
    ensures
        read_signature(encoded_signature(sig)) == (
            sig.sample_rate_hz,
            sig.number_samples,
            sig.bands(),
        ),
{
    let bytes = encoded_signature(sig);
    let head = tail_header(sig);
    let body = signature_body(sig);
    lemma_signature_layout(sig);
    lemma_tail_header_fields(sig);
    let checksum = crc32_checksum(signature_tail(sig));
    assert(bytes =~= le_u32_seq(0xcafe2580) + le_u32_seq(checksum) + (head + body));
    assert(bytes.subrange(28, 32) =~= head.subrange(20, 24));
    assert(bytes.subrange(40, 44) =~= head.subrange(32, 36));
    let rate = sig.sample_rate_hz;
    let id = sample_rate_id(rate);
    lemma_u32_stored(bytes, 28, id << 27u32);
    lemma_u32_stored(bytes, 40, samples_field(sig) as u32);
    assert(id <= 6);
    assert((id << 27u32) as u64 == id as u64 * 0x8000000) by (bit_vector)
        requires
            id <= 6,
    ;
    assert(u32_at(bytes, 28) / 0x8000000 == id) by (nonlinear_arith)
        requires
            u32_at(bytes, 28) == id * 0x8000000,
    ;
    assert(rate_of_id(id as int) == rate);
    lemma_read_body(sig);
}

} // verus!
