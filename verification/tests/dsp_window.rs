use shazam_daemon::dsp::algorithm::{band_of_corrected_bin, recognition_pass, SampleRing};
use shazam_daemon::dsp::signature_format::FrequencyBand;

#[test]
fn window_starts_silent() {
    let ring = SampleRing::new();
    assert_eq!(ring.ordered(), vec![0i16; 2048]);
}

#[test]
fn window_holds_last_2048_samples_of_history() {
    let mut ring = SampleRing::new();
    let mut history: Vec<i16> = vec![0; 2048];
    for k in 0..40 {
        let chunk: [i16; 128] = std::array::from_fn(|i| (k * 128 + i) as i16 + 1);
        ring.push_chunk(&chunk);
        history.extend_from_slice(&chunk);
        assert_eq!(ring.ordered(), &history[history.len() - 2048..]);
    }
}

#[test]
fn bands_of_corrected_bins() {
    assert_eq!(band_of_corrected_bin(2047), None);
    assert_eq!(band_of_corrected_bin(2048), Some(FrequencyBand::_250_520));
    assert_eq!(band_of_corrected_bin(4259), Some(FrequencyBand::_250_520));
    assert_eq!(band_of_corrected_bin(4260), Some(FrequencyBand::_520_1450));
    assert_eq!(band_of_corrected_bin(11878), Some(FrequencyBand::_520_1450));
    assert_eq!(band_of_corrected_bin(11879), Some(FrequencyBand::_1450_3500));
    assert_eq!(band_of_corrected_bin(28672), Some(FrequencyBand::_3500_5500));
    assert_eq!(band_of_corrected_bin(45064), Some(FrequencyBand::_3500_5500));
    assert_eq!(band_of_corrected_bin(45068), None);
    assert_eq!(band_of_corrected_bin(0), None);
    assert_eq!(band_of_corrected_bin(u16::MAX), None);
}

#[test]
fn bands_agree_with_float_frequency() {
    for bin in 0..=u16::MAX {
        let hz = (bin as f32 * (16000.0 / 2.0 / 1024.0 / 64.0)) as i32;
        let expected = match hz {
            250..=519 => Some(FrequencyBand::_250_520),
            520..=1449 => Some(FrequencyBand::_520_1450),
            1450..=3499 => Some(FrequencyBand::_1450_3500),
            3500..=5500 => Some(FrequencyBand::_3500_5500),
            _ => None,
        };
        assert_eq!(band_of_corrected_bin(bin), expected, "bin {}", bin);
    }
}

#[test]
fn recognition_starts_after_46_passes() {
    assert_eq!(recognition_pass(45), None);
    assert_eq!(recognition_pass(46), Some(0));
    assert_eq!(recognition_pass(100), Some(54));
}
