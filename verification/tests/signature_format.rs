use base64::Engine;
use shazam_daemon::dsp::signature_format::{
    lead_in_samples, seal_signature, signature_data_uri, DecodedSignature, FrequencyBand, FrequencyPeak,
    SignatureError, DATA_URI_PREFIX,
};

fn crc32_bitwise(data: &[u8]) -> u32 {
    let mut crc: u32 = 0xffff_ffff;
    for &b in data {
        crc ^= b as u32;
        for _ in 0..8 {
            crc = if crc & 1 != 0 { (crc >> 1) ^ 0xedb8_8320 } else { crc >> 1 };
        }
    }
    !crc
}

fn u32_at(bytes: &[u8], at: usize) -> u32 {
    u32::from_le_bytes([bytes[at], bytes[at + 1], bytes[at + 2], bytes[at + 3]])
}

fn peak(pass: u32, magnitude: u16, bin: u16) -> FrequencyPeak {
    FrequencyPeak { fft_pass_number: pass, peak_magnitude: magnitude, corrected_peak_frequency_bin: bin }
}

#[test]
fn empty_signature_is_a_bare_header() {
    let sig = DecodedSignature::new(16000, 48000);
    let bytes = sig.encode_to_binary().unwrap();
    assert_eq!(bytes.len(), 56);
    assert_eq!(u32_at(&bytes, 0), 0xcafe2580);
    assert_eq!(u32_at(&bytes, 4), crc32_bitwise(&bytes[8..]));
    assert_eq!(u32_at(&bytes, 8), 8);
    assert_eq!(u32_at(&bytes, 12), 0x94119c00);
    assert_eq!(u32_at(&bytes, 16), 0);
    assert_eq!(u32_at(&bytes, 20), 0);
    assert_eq!(u32_at(&bytes, 24), 0);
    assert_eq!(u32_at(&bytes, 28), 3 << 27);
    assert_eq!(u32_at(&bytes, 32), 0);
    assert_eq!(u32_at(&bytes, 36), 0);
    assert_eq!(u32_at(&bytes, 40), 48000 + 3840);
    assert_eq!(u32_at(&bytes, 44), 0x7c0000);
    assert_eq!(u32_at(&bytes, 48), 0x40000000);
    assert_eq!(u32_at(&bytes, 52), 8);
    assert_eq!(&bytes[0..4], &[0x80, 0x25, 0xfe, 0xca]);
}

#[test]
fn sample_rate_identifiers_and_samples_field() {
    let cases = [(8000u32, 1u32, 1920u32), (11025, 2, 2646), (16000, 3, 3840), (32000, 4, 7680), (44100, 5, 10584), (48000, 6, 11520), (22050, 3, 5292)];
    for (rate, id, extra) in cases {
        let bytes = DecodedSignature::new(rate, 100).encode_to_binary().unwrap();
        assert_eq!(u32_at(&bytes, 28), id << 27, "rate {}", rate);
        assert_eq!(u32_at(&bytes, 40), 100 + extra, "rate {}", rate);
    }
}

#[test]
fn peak_records_are_delta_coded_with_jumps() {
    let mut sig = DecodedSignature::new(16000, 0);
    sig.frequency_band_to_sound_peaks[FrequencyBand::_520_1450.index()] =
        vec![peak(3, 0x1234, 0x5678), peak(10, 1, 2), peak(300, 0xabcd, 0x0102)];
    let bytes = sig.encode_to_binary().unwrap();
    let records: Vec<u8> = vec![
        3, 0x34, 0x12, 0x78, 0x56, // gap 3
        7, 1, 0, 2, 0, // gap 7
        0xff, 0x2c, 0x01, 0, 0, // jump to pass 300
        0, 0xcd, 0xab, 0x02, 0x01,
    ];
    assert_eq!(u32_at(&bytes, 56), 0x60030041);
    assert_eq!(u32_at(&bytes, 60), records.len() as u32);
    assert_eq!(&bytes[64..64 + records.len()], &records[..]);
    let padded = 64 + records.len() + (4 - records.len() % 4) % 4;
    assert_eq!(bytes.len(), padded);
    assert!(bytes[64 + records.len()..].iter().all(|&b| b == 0));
    assert_eq!(bytes.len() % 4, 0);
    assert_eq!(u32_at(&bytes, 8) as usize, bytes.len() - 48);
    assert_eq!(u32_at(&bytes, 52) as usize, bytes.len() - 48);
    assert_eq!(u32_at(&bytes, 4), crc32_bitwise(&bytes[8..]));
}

#[test]
fn bands_are_encoded_in_order_and_empty_bands_skipped() {
    let mut sig = DecodedSignature::new(16000, 0);
    sig.frequency_band_to_sound_peaks[0] = vec![peak(1, 2, 3)];
    sig.frequency_band_to_sound_peaks[3] = vec![peak(255, 4, 5)];
    let bytes = sig.encode_to_binary().unwrap();
    assert_eq!(u32_at(&bytes, 56), 0x60030040);
    assert_eq!(u32_at(&bytes, 60), 5);
    assert_eq!(&bytes[64..69], &[1, 2, 0, 3, 0]);
    assert_eq!(&bytes[69..72], &[0, 0, 0]);
    assert_eq!(u32_at(&bytes, 72), 0x60030043);
    assert_eq!(u32_at(&bytes, 76), 10);
    assert_eq!(&bytes[80..90], &[0xff, 0xff, 0, 0, 0, 0, 4, 0, 5, 0]);
    assert_eq!(bytes.len(), 92);
}

#[test]
fn uri_is_prefix_and_standard_base64_of_binary() {
    let mut sig = DecodedSignature::new(16000, 128000);
    sig.frequency_band_to_sound_peaks[2] = vec![peak(0, 6000, 20000), peak(1, 6100, 20010)];
    let binary = sig.encode_to_binary().unwrap();
    let uri = sig.encode_to_uri().unwrap();
    assert!(uri.starts_with(DATA_URI_PREFIX));
    assert_eq!(DATA_URI_PREFIX, "data:audio/vnd.shazam.sig;base64,");
    let text = &uri[DATA_URI_PREFIX.len()..];
    assert_eq!(text, base64::prelude::BASE64_STANDARD.encode(&binary));
    assert_ne!(text.as_bytes(), &binary[..]);
    assert_eq!(base64::prelude::BASE64_STANDARD.decode(text).unwrap(), binary);
}

#[test]
fn base64_of_known_header() {
    let uri = DecodedSignature::new(16000, 0).encode_to_uri().unwrap();
    assert!(uri.starts_with("data:audio/vnd.shazam.sig;base64,gCX+y"));
    assert!(uri.ends_with("="));
}

#[test]
fn signature_error_is_comparable() {
    assert_eq!(SignatureError::TooLarge, SignatureError::TooLarge);
}

#[test]
fn band_indices() {
    assert_eq!(FrequencyBand::_250_520.index(), 0);
    assert_eq!(FrequencyBand::_520_1450.index(), 1);
    assert_eq!(FrequencyBand::_1450_3500.index(), 2);
    assert_eq!(FrequencyBand::_3500_5500.index(), 3);
}

#[test]
fn sealing_prepends_magic_and_checksum() {
    assert_eq!(
        seal_signature(vec![9, 8, 7], 0x11223344),
        vec![0x80, 0x25, 0xfe, 0xca, 0x44, 0x33, 0x22, 0x11, 9, 8, 7]
    );
    assert_eq!(signature_data_uri("QUJD"), "data:audio/vnd.shazam.sig;base64,QUJD");
}

#[test]
fn tail_bytes_are_the_checksummed_part() {
    let mut sig = DecodedSignature::new(44100, 7);
    sig.frequency_band_to_sound_peaks[1] = vec![peak(2, 3, 4)];
    let tail = sig.signature_tail_bytes().unwrap();
    let full = sig.encode_to_binary().unwrap();
    assert_eq!(&full[8..], &tail[..]);
    assert_eq!(u32_at(&full, 4), crc32_bitwise(&tail));
}

fn read_back(bytes: &[u8]) -> (u32, u32, [Vec<FrequencyPeak>; 4]) {
    let rate = match u32_at(bytes, 28) >> 27 {
        1 => 8000,
        2 => 11025,
        4 => 32000,
        5 => 44100,
        6 => 48000,
        _ => 16000,
    };
    let samples = u32_at(bytes, 40) - (rate as f32 * 0.24) as u32;
    let mut bands: [Vec<FrequencyPeak>; 4] = [Vec::new(), Vec::new(), Vec::new(), Vec::new()];
    let mut at = 56;
    while at + 8 <= bytes.len() {
        let band = (u32_at(bytes, at) - 0x60030040) as usize;
        let n = u32_at(bytes, at + 4) as usize;
        let records = &bytes[at + 8..at + 8 + n];
        let mut pass: u32 = 0;
        let mut k = 0;
        while k < records.len() {
            if records[k] == 0xff {
                pass = u32_at(records, k + 1);
                k += 5;
            }
            pass += records[k] as u32;
            let magnitude = u16::from_le_bytes([records[k + 1], records[k + 2]]);
            let bin = u16::from_le_bytes([records[k + 3], records[k + 4]]);
            bands[band].push(peak(pass, magnitude, bin));
            k += 5;
        }
        at += 8 + n + (4 - n % 4) % 4;
    }
    (rate, samples, bands)
}

#[test]
fn encoding_reads_back_as_the_signature() {
    for &rate in &[8000u32, 11025, 16000, 32000, 44100, 48000] {
        let mut sig = DecodedSignature::new(rate, 123_456);
        sig.frequency_band_to_sound_peaks[0] = vec![peak(0, 7, 9), peak(254, 1, 2), peak(509, 3, 4)];
        sig.frequency_band_to_sound_peaks[2] = vec![peak(1000, 0xffff, 0x0fff), peak(1000, 5, 6)];
        sig.frequency_band_to_sound_peaks[3] = vec![peak(70_000, 8, 8)];
        let bytes = sig.encode_to_binary().unwrap();
        let (r, n, bands) = read_back(&bytes);
        assert_eq!(r, rate);
        assert_eq!(n, 123_456);
        assert_eq!(bands, sig.frequency_band_to_sound_peaks);
    }
}

#[test]
fn lead_in_is_the_single_precision_product() {
    let rates = [
        0u32, 1, 7, 8000, 11025, 16000, 22050, 32000, 44100, 48000, 96000, 8_738_154, 10_000_004,
        16_777_215, 16_777_216, 16_777_217, 16_777_219, 33_554_433, 123_456_789, 4_294_967_295,
    ];
    for rate in rates {
        assert_eq!(lead_in_samples(rate), (rate as f32 * 0.24) as u32, "rate {}", rate);
    }
    let mut x: u32 = 1;
    for _ in 0..200_000 {
        x = x.wrapping_mul(1_664_525).wrapping_add(1_013_904_223);
        assert_eq!(lead_in_samples(x), (x as f32 * 0.24) as u32, "rate {}", x);
    }
    assert_eq!(lead_in_samples(10_000_004), 2_400_001);
    assert_eq!(lead_in_samples(16_777_217), 4_026_531);
}

#[test]
fn largest_sample_field_still_encodes() {
    let sig = DecodedSignature::new(4_294_967_295, 3_264_175_167);
    let bytes = sig.encode_to_binary().unwrap();
    assert_eq!(u32_at(&bytes, 40), u32::MAX);
}
