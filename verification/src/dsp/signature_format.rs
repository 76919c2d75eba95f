use vstd::prelude::*;
use byteorder::{ByteOrder, LittleEndian};
use base64::Engine;

verus! {

/// Prefix of the data URI that carries an encoded signature.
pub const DATA_URI_PREFIX: &'static str = "data:audio/vnd.shazam.sig;base64,";

/// One spectral peak found by the landmark extractor.
#[derive(Debug, Clone, Copy, PartialEq, Eq, Structural)]
pub struct FrequencyPeak {
    pub fft_pass_number: u32,
    pub peak_magnitude: u16,
    pub corrected_peak_frequency_bin: u16,
}

/// The four frequency bands in which peaks are grouped.
#[derive(Hash, Eq, PartialEq, Ord, PartialOrd, Debug, Clone, Copy, Structural)]
pub enum FrequencyBand {
    _250_520,
    _520_1450,
    _1450_3500,
    _3500_5500,
}

impl FrequencyBand {
    /// Position of the band in a signature's band table.
    pub open spec fn band_index(self) -> nat {
        match self {
            FrequencyBand::_250_520 => 0,
            FrequencyBand::_520_1450 => 1,
            FrequencyBand::_1450_3500 => 2,
            FrequencyBand::_3500_5500 => 3,
        }
    }

    /// Position of the band in a signature's band table.
    pub fn index(&self) -> (i: usize)
        ensures
            i == self.band_index(),
    {
        match self {
            FrequencyBand::_250_520 => 0,
            FrequencyBand::_520_1450 => 1,
            FrequencyBand::_1450_3500 => 2,
            FrequencyBand::_3500_5500 => 3,
        }
    }
}

/// A decoded landmark signature: the sampling parameters and, per band,
/// the peaks in the order they were found.
#[derive(Debug, Clone)]
pub struct DecodedSignature {
    pub sample_rate_hz: u32,
    pub number_samples: u32,
    pub frequency_band_to_sound_peaks: [Vec<FrequencyPeak>; 4],
}

/// Bytes of `n`, least significant first.
pub open spec fn le_u32_seq(n: u32) -> Seq<u8> {
    seq![(n & 0xff) as u8, ((n >> 8) & 0xff) as u8, ((n >> 16) & 0xff) as u8, ((n >> 24) & 0xff) as u8]
}

/// Bytes of `n`, least significant first.
pub open spec fn le_u16_seq(n: u16) -> Seq<u8> {
    seq![(n & 0xff) as u8, ((n >> 8) & 0xff) as u8]
}

/// Peaks whose pass numbers never decrease.
pub open spec fn passes_ordered(peaks: Seq<FrequencyPeak>) -> bool {
    forall|i: int, j: int|
        0 <= i <= j < peaks.len() ==> peaks[i].fft_pass_number <= peaks[j].fft_pass_number
}

/// Pass number that the record of the next peak is relative to.
pub open spec fn previous_pass(peaks: Seq<FrequencyPeak>) -> u32 {
    if peaks.len() == 0 {
        0
    } else {
        peaks.last().fft_pass_number
    }
}

/// Record of one peak, relative to the pass number `prev` of the peak before it:
/// a jump marker with the absolute pass number when the gap is 255 or more,
/// then the one-byte gap, the magnitude and the corrected bin.
pub open spec fn peak_record(p: FrequencyPeak, prev: u32) -> Seq<u8> {
    if p.fft_pass_number - prev >= 255 {
        seq![0xffu8] + le_u32_seq(p.fft_pass_number) + seq![0u8] + le_u16_seq(p.peak_magnitude)
            + le_u16_seq(p.corrected_peak_frequency_bin)
    } else {
        seq![(p.fft_pass_number - prev) as u8] + le_u16_seq(p.peak_magnitude) + le_u16_seq(
            p.corrected_peak_frequency_bin,
        )
    }
}

/// The peak records of one band, in order.
pub open spec fn band_peak_bytes(peaks: Seq<FrequencyPeak>) -> Seq<u8>
    decreases peaks.len(),
{
    if peaks.len() == 0 {
        seq![]
    } else {
        band_peak_bytes(peaks.drop_last()) + peak_record(peaks.last(), previous_pass(peaks.drop_last()))
    }
}

/// Number of zero bytes that align a block of `n` bytes to four.
pub open spec fn padding_len(n: nat) -> nat {
    ((4 - n % 4) % 4) as nat
}

/// Zero bytes.
pub open spec fn zeros(n: nat) -> Seq<u8> {
    Seq::new(n, |i: int| 0u8)
}

/// The block of band `b`: absent for a band without peaks, else its tag, the
/// length of its records, the records and the zero padding.
pub open spec fn band_block(b: int, peaks: Seq<FrequencyPeak>) -> Seq<u8> {
    if peaks.len() == 0 {
        seq![]
    } else {
        let records = band_peak_bytes(peaks);
        le_u32_seq((0x60030040 + b) as u32) + le_u32_seq(records.len() as u32) + records + zeros(
            padding_len(records.len()),
        )
    }
}

/// The blocks of the first `n` bands, in band order.
pub open spec fn bands_body(bands: Seq<Seq<FrequencyPeak>>, n: nat) -> Seq<u8>
    decreases n,
{
    if n == 0 {
        seq![]
    } else {
        bands_body(bands, (n - 1) as nat) + band_block(n - 1, bands[n - 1])
    }
}

/// Identifier of a sample rate in the header; unknown rates count as 16 kHz.
pub open spec fn sample_rate_id(rate: u32) -> u32 {
    if rate == 8000 {
        1
    } else if rate == 11025 {
        2
    } else if rate == 16000 {
        3
    } else if rate == 32000 {
        4
    } else if rate == 44100 {
        5
    } else if rate == 48000 {
        6
    } else {
        3
    }
}

/// The unit of the last of the 24 significant bits of `x` (one below 2^24).
pub open spec fn f32_unit(x: nat) -> nat
    decreases x,
{
    if x < 0x1000000 {
        1
    } else {
        2 * f32_unit(x / 2)
    }
}

/// `x` rounded to a multiple of the unit `u`, to nearest and ties to even.
pub open spec fn round_to_unit(x: nat, u: nat) -> nat {
    let q = x / u;
    let r = x % u;
    if u > 1 && (2 * r > u || (2 * r == u && q % 2 == 1)) {
        (q + 1) * u
    } else {
        q * u
    }
}

/// `x` rounded to single precision (24 significant bits, to nearest, ties
/// to even).
pub open spec fn f32_round(x: nat) -> nat {
    round_to_unit(x, f32_unit(x))
}

/// The samples in 0.24 s at `rate` as the format's single-precision
/// arithmetic computes them: the rate rounded to single precision, times
/// 0.24 in single precision (exactly 16106127 / 2^26), the product rounded
/// to single precision, and the result truncated to an integer.
pub open spec fn lead_in(rate: u32) -> nat {
    f32_round(f32_round(rate as nat) * 16106127) / 0x4000000
}

/// The sample count field: the samples plus 0.24 s worth of the sample rate.
pub open spec fn samples_field(sig: DecodedSignature) -> int {
    sig.number_samples + lead_in(sig.sample_rate_hz)
}

/// Rounds `x` to single precision.
fn f32_round_u64(x: u64) -> (r: u64)
    requires
        x < 0x4000_0000_0000_0000,
    ensures
        r == f32_round(x as nat),
        r <= 2 * x,
{
    let mut y: u64 = x;
    let mut u: u64 = 1;
    while y >= 0x1000000
        invariant
            u >= 1,
            y == x as nat / u as nat,
            u * y <= x,
            f32_unit(x as nat) == u * f32_unit(y as nat),
            u == 1 || y >= 0x800000,
        decreases y,
    {
        let ghost (y0, u0) = (y as nat, u as nat);
        assert(u0 <= x / 0x1000000) by (nonlinear_arith)
            requires
                u0 * y0 <= x,
                y0 >= 0x1000000,
        ;
        assert(f32_unit(y0) == 2 * f32_unit(y0 / 2));
        y = y / 2;
        u = u * 2;
        proof {
            vstd::arithmetic::div_mod::lemma_div_denominator(x as int, u0 as int, 2);
            assert(u * y <= x) by (nonlinear_arith)
                requires
                    u == 2 * u0,
                    y == y0 / 2,
                    u0 * y0 <= x,
            ;
            assert(f32_unit(x as nat) == u * f32_unit(y as nat)) by (nonlinear_arith)
                requires
                    f32_unit(x as nat) == u0 * f32_unit(y0),
                    f32_unit(y0) == 2 * f32_unit(y as nat),
                    u == 2 * u0,
            ;
        }
    }
    assert(f32_unit(y as nat) == 1);
    assert(f32_unit(x as nat) == u) by (nonlinear_arith)
        requires
            f32_unit(x as nat) == u * f32_unit(y as nat),
            f32_unit(y as nat) == 1,
    ;
    let q = x / u;
    let rem = x % u;
    assert(q * u + rem == x && rem < u) by (nonlinear_arith)
        requires
            q == x / u,
            rem == x % u,
            u >= 1,
    ;
    assert(u <= x || u == 1) by (nonlinear_arith)
        requires
            u * y <= x,
            u == 1 || y >= 0x800000,
    ;
    if u > 1 && (2 * rem > u || (2 * rem == u && q % 2 == 1)) {
        assert((q + 1) * u == q * u + u) by (nonlinear_arith);
        (q + 1) * u
    } else {
        assert(q * u <= x);
        q * u
    }
}

/// The samples in 0.24 s at `rate`, computed as the format's single-precision
/// arithmetic does.
pub fn lead_in_samples(rate: u32) -> (t: u32)
    ensures
        t == lead_in(rate),
{
    let r = f32_round_u64(rate as u64);
    let p = r * 16106127;
    let s = f32_round_u64(p);
    (s / 0x4000000) as u32
}

/// Name of the CRC-32 checksum that `crc32fast::hash` computes.
pub uninterp spec fn crc32_checksum(data: Seq<u8>) -> u32;

/// Computes the CRC-32 checksum of `data` with `crc32fast::hash`; the
/// contract claims only that the result is the named checksum of the bytes.
#[verifier::external_body]
fn crc32_of(data: &[u8]) -> (c: u32)
    ensures
        c == crc32_checksum(data@),
{
    crc32fast::hash(data)
}

/// Stores `n` with `byteorder::LittleEndian::write_u32` into a fresh
/// four-byte array; the contract claims the least significant byte comes first.
#[verifier::external_body]
fn le_u32_bytes(n: u32) -> (bytes: [u8; 4])
    ensures
        bytes@ == le_u32_seq(n),
{
    let mut bytes = [0u8; 4];
    LittleEndian::write_u32(&mut bytes, n);
    bytes
}

/// Stores `n` with `byteorder::LittleEndian::write_u16` into a fresh
/// two-byte array; the contract claims the least significant byte comes first.
#[verifier::external_body]
fn le_u16_bytes(n: u16) -> (bytes: [u8; 2])
    ensures
        bytes@ == le_u16_seq(n),
{
    let mut bytes = [0u8; 2];
    LittleEndian::write_u16(&mut bytes, n);
    bytes
}

fn push_u32(out: &mut Vec<u8>, n: u32)
    ensures
        final(out)@ == old(out)@ + le_u32_seq(n),
{
    let b = le_u32_bytes(n);
    out.push(b[0]);
    out.push(b[1]);
    out.push(b[2]);
    out.push(b[3]);
    assert(final(out)@ =~= old(out)@ + le_u32_seq(n));
}

fn push_u16(out: &mut Vec<u8>, n: u16)
    ensures
        final(out)@ == old(out)@ + le_u16_seq(n),
{
    let b = le_u16_bytes(n);
    out.push(b[0]);
    out.push(b[1]);
    assert(final(out)@ =~= old(out)@ + le_u16_seq(n));
}

/// The peak records of one band.
#[verifier::spinoff_prover]
fn encode_band_peaks(peaks: &Vec<FrequencyPeak>) -> (out: Vec<u8>)
    requires
        passes_ordered(peaks@),
    ensures
        out@ == band_peak_bytes(peaks@),
{
    let mut out: Vec<u8> = Vec::new();
    let mut last: u32 = 0;
    let mut i: usize = 0;
    while i < peaks.len()
        invariant
            i <= peaks.len(),
            passes_ordered(peaks@),
            last == previous_pass(peaks@.take(i as int)),
            out@ == band_peak_bytes(peaks@.take(i as int)),
        decreases peaks.len() - i,
    {
        let p = peaks[i];
        let ghost before = out@;
        assert(peaks@.take(i + 1).drop_last() =~= peaks@.take(i as int));
        assert(last <= p.fft_pass_number);
        if p.fft_pass_number - last >= 255 {
            out.push(0xff);
            push_u32(&mut out, p.fft_pass_number);
            last = p.fft_pass_number;
        }
        out.push((p.fft_pass_number - last) as u8);
        push_u16(&mut out, p.peak_magnitude);
        push_u16(&mut out, p.corrected_peak_frequency_bin);
        last = p.fft_pass_number;
        assert(out@ =~= before + peak_record(p, previous_pass(peaks@.take(i as int))));
        i = i + 1;
    }
    assert(peaks@.take(peaks.len() as int) =~= peaks@);
    out
}


/// Why a signature could not be encoded.
#[derive(Debug, Clone, Copy, PartialEq, Eq, Structural)]
pub enum SignatureError {
    /// The encoding would not fit the format's 32-bit length fields
    /// (or, for a data URI, the machine's address space).
    TooLarge,
}

impl DecodedSignature {
    /// The peaks of the four bands, in band order.
    pub open spec fn bands(&self) -> Seq<Seq<FrequencyPeak>> {
        Seq::new(4, |b: int| self.frequency_band_to_sound_peaks@[b]@)
    }

    /// What encoding needs: peaks ordered by pass number within each band
    /// and a sample count field that fits in 32 bits.
    pub open spec fn encodable(&self) -> bool {
        &&& forall|b: int| 0 <= b < 4 ==> passes_ordered(#[trigger] self.bands()[b])
        &&& samples_field(*self) <= u32::MAX
    }

    /// An empty signature for the given sampling parameters.
    pub fn new(sample_rate_hz: u32, number_samples: u32) -> (s: Self)
        ensures
            s.sample_rate_hz == sample_rate_hz,
            s.number_samples == number_samples,
            forall|b: int| 0 <= b < 4 ==> (#[trigger] s.bands()[b]).len() == 0,
    {
        Self {
            sample_rate_hz,
            number_samples,
            frequency_band_to_sound_peaks: [Vec::new(), Vec::new(), Vec::new(), Vec::new()],
        }
    }
}

/// The blocks of all four bands.
pub open spec fn signature_body(sig: DecodedSignature) -> Seq<u8> {
    bands_body(sig.bands(), 4)
}

/// Length of the whole encoding: 56 header bytes and the band blocks.
pub open spec fn encoded_len(sig: DecodedSignature) -> int {
    56 + signature_body(sig).len() as int
}

/// The 48 header bytes from byte 8 on: the size field, the second magic
/// number, the sample rate identifier, the sample count, the fixed fields
/// and the size field again.
pub open spec fn tail_header(sig: DecodedSignature) -> Seq<u8> {
    let size = (encoded_len(sig) - 48) as u32;
    le_u32_seq(size) + le_u32_seq(0x94119c00) + le_u32_seq(0) + le_u32_seq(0) + le_u32_seq(0)
        + le_u32_seq(sample_rate_id(sig.sample_rate_hz) << 27u32) + le_u32_seq(0) + le_u32_seq(0)
        + le_u32_seq(samples_field(sig) as u32) + le_u32_seq(0x7c0000) + le_u32_seq(0x40000000)
        + le_u32_seq(size)
}

/// The encoding from byte 8 on, which the checksum covers: the rest of the
/// header and the band blocks.
pub open spec fn signature_tail(sig: DecodedSignature) -> Seq<u8> {
    tail_header(sig) + signature_body(sig)
}

/// The complete binary signature: the first magic number, the CRC-32 of
/// everything from byte 8 on, and that tail.
pub open spec fn encoded_signature(sig: DecodedSignature) -> Seq<u8> {
    le_u32_seq(0xcafe2580) + le_u32_seq(crc32_checksum(signature_tail(sig))) + signature_tail(sig)
}

/// Name of the text that the `base64` crate's standard engine (standard
/// alphabet, with padding) produces for `data`.
pub uninterp spec fn base64_standard(data: Seq<u8>) -> Seq<char>;

/// Encodes `data` with `base64::prelude::BASE64_STANDARD.encode`; the
/// contract claims only that the result is the named encoding of the bytes.
/// The crate panics when the encoded length overflows `usize`, which the
/// precondition rules out.
#[verifier::external_body]
fn base64_encode(data: &[u8]) -> (text: String)
    requires
        data@.len() <= usize::MAX / 4 * 3,
    ensures
        text@ == base64_standard(data@),
{
    base64::prelude::BASE64_STANDARD.encode(data)
}

proof fn lemma_bands_body_grows(bands: Seq<Seq<FrequencyPeak>>, n: nat, m: nat)
    requires
        n <= m,
    ensures
        bands_body(bands, n).len() <= bands_body(bands, m).len(),
    decreases m,
{
    if n < m {
        lemma_bands_body_grows(bands, n, (m - 1) as nat);
    }
}

fn sample_rate_id_of(rate: u32) -> (id: u32)
    ensures
        id == sample_rate_id(rate),
{
    if rate == 8000 {
        1
    } else if rate == 11025 {
        2
    } else if rate == 16000 {
        3
    } else if rate == 32000 {
        4
    } else if rate == 44100 {
        5
    } else if rate == 48000 {
        6
    } else {
        3
    }
}

/// The complete binary signature from the bytes that the checksum covers
/// and their checksum: the first magic number, the checksum, the bytes.
pub fn seal_signature(tail: Vec<u8>, crc: u32) -> (out: Vec<u8>)
    ensures
        out@ == le_u32_seq(0xcafe2580) + le_u32_seq(crc) + tail@,
{
    let mut tail = tail;
    let ghost t = tail@;
    let mut out: Vec<u8> = Vec::new();
    push_u32(&mut out, 0xcafe2580);
    push_u32(&mut out, crc);
    out.append(&mut tail);
    assert(out@ =~= le_u32_seq(0xcafe2580) + le_u32_seq(crc) + t);
    out
}

/// The data URI that carries the base64 text of a signature.
pub fn signature_data_uri(base64_text: &str) -> (uri: String)
    ensures
        uri@ == DATA_URI_PREFIX@ + base64_text@,
{
    let mut uri = String::from_str(DATA_URI_PREFIX);
    uri.append(base64_text);
    uri
}

impl DecodedSignature {
    /// The part of the binary encoding that the checksum covers: everything
    /// from byte 8 on.
    ///
    /// Fails only when the encoding would not fit its 32-bit length fields.
    #[verifier::spinoff_prover]
    pub fn signature_tail_bytes(&self) -> (r: Result<Vec<u8>, SignatureError>)
        requires
            self.encodable(),
        ensures
            match r {
                Ok(bytes) => encoded_len(*self) <= u32::MAX && bytes@ == signature_tail(*self),
                Err(e) => encoded_len(*self) > u32::MAX && e == SignatureError::TooLarge,
            },
    {
        let ghost bands = self.bands();
        let limit: u64 = 0xffff_ffff - 56;
        let mut body: Vec<u8> = Vec::new();
        let mut b: usize = 0;
        while b < 4
            invariant
                b <= 4,
                limit == 0xffff_ffff - 56,
                bands == self.bands(),
                self.encodable(),
                body@ == bands_body(bands, b as nat),
                body@.len() <= limit,
            decreases 4 - b,
        {
            let peaks = &self.frequency_band_to_sound_peaks[b];
            assert(peaks@ == bands[b as int]);
            if peaks.len() > 0 {
                let records = encode_band_peaks(peaks);
                let cur = body.len() as u64;
                assert(bands_body(bands, (b + 1) as nat) == body@ + band_block(b as int, peaks@));
                assert(band_block(b as int, peaks@).len() == 8 + records@.len() + padding_len(
                    records@.len(),
                ));
                if records.len() as u64 > limit - cur {
                    proof {
                        lemma_bands_body_grows(bands, (b + 1) as nat, 4);
                    }
                    return Err(SignatureError::TooLarge);
                }
                let rl = records.len() as u64;
                let pad = (4 - rl % 4) % 4;
                assert(pad == padding_len(records@.len()));
                if cur + 8 + rl + pad > limit {
                    proof {
                        lemma_bands_body_grows(bands, (b + 1) as nat, 4);
                    }
                    return Err(SignatureError::TooLarge);
                }
                push_u32(&mut body, 0x60030040 + b as u32);
                push_u32(&mut body, records.len() as u32);
                let ghost before_records = body@;
                let mut k: usize = 0;
                while k < records.len()
                    invariant
                        k <= records.len(),
                        body@ == before_records + records@.take(k as int),
                    decreases records.len() - k,
                {
                    body.push(records[k]);
                    assert(records@.take(k + 1) =~= records@.take(k as int).push(records@[k as int]));
                    k = k + 1;
                }
                assert(records@.take(records.len() as int) =~= records@);
                let ghost before_pad = body@;
                let mut z: u64 = 0;
                while z < pad
                    invariant
                        z <= pad,
                        pad < 4,
                        body@ == before_pad + zeros(z as nat),
                    decreases pad - z,
                {
                    body.push(0);
                    assert(zeros((z + 1) as nat) =~= zeros(z as nat).push(0u8));
                    z = z + 1;
                }
                assert(body@ =~= bands_body(bands, (b + 1) as nat));
            } else {
                assert(body@ =~= bands_body(bands, (b + 1) as nat));
            }
            b = b + 1;
        }
        let total = body.len() + 56;
        let size: u32 = (total - 48) as u32;
        let mut tail: Vec<u8> = Vec::new();
        push_u32(&mut tail, size);
        push_u32(&mut tail, 0x94119c00);
        push_u32(&mut tail, 0);
        push_u32(&mut tail, 0);
        push_u32(&mut tail, 0);
        let id = sample_rate_id_of(self.sample_rate_hz);
        push_u32(&mut tail, id << 27u32);
        push_u32(&mut tail, 0);
        push_u32(&mut tail, 0);
        let extra = lead_in_samples(self.sample_rate_hz);
        push_u32(&mut tail, self.number_samples + extra);
        push_u32(&mut tail, 0x7c0000);
        push_u32(&mut tail, 0x40000000);
        push_u32(&mut tail, size);
        tail.append(&mut body);
        assert(tail@ =~= signature_tail(*self));
        Ok(tail)
    }

    /// Encodes the signature in the landmark binary format.
    ///
    /// Fails only when the encoding would not fit its 32-bit length fields.
    pub fn encode_to_binary(&self) -> (r: Result<Vec<u8>, SignatureError>)
        requires
            self.encodable(),
        ensures
            match r {
                Ok(bytes) => encoded_len(*self) <= u32::MAX && bytes@ == encoded_signature(*self),
                Err(e) => encoded_len(*self) > u32::MAX && e == SignatureError::TooLarge,
            },
    {
        let tail = self.signature_tail_bytes()?;
        let crc = crc32_of(tail.as_slice());
        Ok(seal_signature(tail, crc))
    }

    /// Encodes the signature as a data URI: the prefix and the standard
    /// base64 text of the binary encoding.
    ///
    /// Fails when the binary encoding does not fit its 32-bit length fields,
    /// or its base64 text would not fit in memory.
    pub fn encode_to_uri(&self) -> (r: Result<String, SignatureError>)
        requires
            self.encodable(),
        ensures
            match r {
                Ok(uri) => {
                    &&& encoded_len(*self) <= u32::MAX
                    &&& encoded_len(*self) <= usize::MAX / 4 * 3
                    &&& uri@ == DATA_URI_PREFIX@ + base64_standard(encoded_signature(*self))
                },
                Err(e) => {
                    &&& encoded_len(*self) > u32::MAX || encoded_len(*self) > usize::MAX / 4 * 3
                    &&& e == SignatureError::TooLarge
                },
            },
    {
        let binary = self.encode_to_binary()?;
        if binary.len() > usize::MAX / 4 * 3 {
            return Err(SignatureError::TooLarge);
        }
        let encoded = base64_encode(binary.as_slice());
        Ok(signature_data_uri(encoded.as_str()))
    }
}


proof fn lemma_bands_body_aligned(bands: Seq<Seq<FrequencyPeak>>, n: nat)
    ensures
        bands_body(bands, n).len() % 4 == 0,
    decreases n,
{
    if n > 0 {
        lemma_bands_body_aligned(bands, (n - 1) as nat);
        let peaks = bands[n - 1];
        if peaks.len() > 0 {
            let rl = band_peak_bytes(peaks).len();
            assert((8 + rl + padding_len(rl)) % 4 == 0);
        }
    }
}

/// Law of the binary format: every encoding is a whole number of 32-bit
/// words; it opens with the first magic number, the CRC-32 of everything
/// from byte 8 on, the size without the 48-byte header, the second magic
/// number; the sample rate identifier (shifted to the top five bits) is at
/// byte 28 and the sample count field at byte 40; the size is repeated at
/// byte 52, and the band blocks follow from byte 56.
#[verifier::spinoff_prover]
pub proof fn lemma_signature_layout(sig: DecodedSignature)
    ensures
        ({
            let bytes = encoded_signature(sig);
            &&& bytes.len() == encoded_len(sig)
            &&& bytes.len() % 4 == 0
            &&& bytes.subrange(0, 4) == le_u32_seq(0xcafe2580)
            &&& bytes.subrange(4, 8) == le_u32_seq(crc32_checksum(bytes.skip(8)))
            &&& bytes.subrange(8, 12) == le_u32_seq((bytes.len() - 48) as u32)
            &&& bytes.subrange(12, 16) == le_u32_seq(0x94119c00)
            &&& bytes.subrange(28, 32) == le_u32_seq(sample_rate_id(sig.sample_rate_hz) << 27u32)
            &&& bytes.subrange(40, 44) == le_u32_seq(samples_field(sig) as u32)
            &&& bytes.subrange(52, 56) == le_u32_seq((bytes.len() - 48) as u32)
            &&& bytes.skip(56) == signature_body(sig)
        }),
{
    let bytes = encoded_signature(sig);
    let tail = signature_tail(sig);
    let head = tail_header(sig);
    let size = (encoded_len(sig) - 48) as u32;
    lemma_bands_body_aligned(sig.bands(), 4);
    lemma_tail_header_fields(sig);
    assert(bytes.skip(8) =~= tail);
    assert(bytes.subrange(0, 4) =~= le_u32_seq(0xcafe2580));
    assert(bytes.subrange(4, 8) =~= le_u32_seq(crc32_checksum(tail)));
    assert(bytes.subrange(8, 12) =~= head.subrange(0, 4));
    assert(bytes.subrange(12, 16) =~= head.subrange(4, 8));
    assert(bytes.subrange(52, 56) =~= head.subrange(44, 48));
    assert(bytes.subrange(28, 32) =~= head.subrange(20, 24));
    assert(bytes.subrange(40, 44) =~= head.subrange(32, 36));
    assert(bytes.skip(56) =~= signature_body(sig));
}

#[verifier::spinoff_prover]
pub(crate) proof fn lemma_tail_header_fields(sig: DecodedSignature)
    ensures
        tail_header(sig).len() == 48,
        tail_header(sig).subrange(0, 4) == le_u32_seq((encoded_len(sig) - 48) as u32),
        tail_header(sig).subrange(4, 8) == le_u32_seq(0x94119c00),
        tail_header(sig).subrange(44, 48) == le_u32_seq((encoded_len(sig) - 48) as u32),
        tail_header(sig).subrange(20, 24) == le_u32_seq(sample_rate_id(sig.sample_rate_hz) << 27u32),
        tail_header(sig).subrange(32, 36) == le_u32_seq(samples_field(sig) as u32),
{
    let head = tail_header(sig);
    let size = (encoded_len(sig) - 48) as u32;
    assert(head.subrange(0, 4) =~= le_u32_seq(size));
    assert(head.subrange(4, 8) =~= le_u32_seq(0x94119c00));
    assert(head.subrange(44, 48) =~= le_u32_seq(size));
    assert(head.subrange(20, 24) =~= le_u32_seq(sample_rate_id(sig.sample_rate_hz) << 27u32));
    assert(head.subrange(32, 36) =~= le_u32_seq(samples_field(sig) as u32));
}

} // verus!
