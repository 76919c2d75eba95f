use shazam_daemon::audio::capture::{
    attempt_source, capture_command_args, decode_pcm_s16le, failed_monitor_attempt, AudioSourceMode, PcmDecoder,
    RingBuffer, RING_CAPACITY,
};

#[test]
fn new_buffer_is_empty() {
    let rb = RingBuffer::new();
    assert_eq!(rb.count(), 0);
    assert!(rb.extract_recent(10).is_empty());
}

#[test]
fn extract_recent_returns_newest_samples_oldest_first() {
    let mut rb = RingBuffer::new();
    rb.push_slice(&[1, 2, 3, 4, 5]);
    assert_eq!(rb.count(), 5);
    assert_eq!(rb.extract_recent(3), vec![3, 4, 5]);
    assert_eq!(rb.extract_recent(5), vec![1, 2, 3, 4, 5]);
    assert_eq!(rb.extract_recent(100), vec![1, 2, 3, 4, 5]);
    assert_eq!(rb.extract_recent(0), Vec::<i16>::new());
    rb.push_slice(&[6]);
    assert_eq!(rb.extract_recent(2), vec![5, 6]);
}

#[test]
fn wrapped_buffer_keeps_only_the_capacity() {
    let mut rb = RingBuffer::new();
    let history: Vec<i16> = (0..RING_CAPACITY + 1000).map(|i| (i % 30000) as i16).collect();
    rb.push_slice(&history[..RING_CAPACITY - 5]);
    assert_eq!(rb.count(), RING_CAPACITY - 5);
    rb.push_slice(&history[RING_CAPACITY - 5..]);
    assert_eq!(rb.count(), RING_CAPACITY);
    let all = rb.extract_recent(RING_CAPACITY);
    assert_eq!(&all[..], &history[1000..]);
    assert_eq!(rb.extract_recent(1500), &history[history.len() - 1500..]);
    assert_eq!(rb.extract_recent(999), &history[history.len() - 999..]);
    assert_eq!(rb.extract_recent(usize::MAX).len(), RING_CAPACITY);
}

#[test]
fn exactly_full_buffer() {
    let mut rb = RingBuffer::new();
    let history: Vec<i16> = (0..RING_CAPACITY).map(|i| (i % 1000) as i16).collect();
    rb.push_slice(&history);
    assert_eq!(rb.count(), RING_CAPACITY);
    assert_eq!(rb.extract_recent(RING_CAPACITY), history);
    assert_eq!(rb.extract_recent(7), &history[RING_CAPACITY - 7..]);
}

#[test]
fn clear_forgets_everything() {
    let mut rb = RingBuffer::new();
    rb.push_slice(&[9; 100]);
    rb.clear();
    assert_eq!(rb.count(), 0);
    assert!(rb.extract_recent(50).is_empty());
    rb.push_slice(&[7, 8]);
    assert_eq!(rb.extract_recent(5), vec![7, 8]);
}

#[test]
fn pcm_bytes_decode_as_little_endian_signed_samples() {
    let bytes = [0x01, 0x00, 0xff, 0xff, 0x00, 0x80, 0xff, 0x7f, 0x34, 0x12, 0x07];
    assert_eq!(decode_pcm_s16le(&bytes), vec![1, -1, i16::MIN, i16::MAX, 0x1234]);
    assert!(decode_pcm_s16le(&[0x05]).is_empty());
}

#[test]
fn capture_arguments_per_source() {
    let tail = ["--format", "s16", "--rate", "16000", "--channels", "1", "-"];
    let monitor = capture_command_args(AudioSourceMode::Monitor);
    assert_eq!(&monitor[..2], &["-P", "stream.capture.sink=true"]);
    assert_eq!(&monitor[2..], &tail);
    assert_eq!(capture_command_args(AudioSourceMode::Auto), monitor);
    let mic = capture_command_args(AudioSourceMode::Mic);
    assert_eq!(&mic[..2], &["--target", "@DEFAULT_AUDIO_SOURCE@"]);
    assert_eq!(&mic[2..], &tail);
}

#[test]
fn decoder_keeps_alignment_across_odd_reads() {
    let stream: Vec<u8> = (0..1001u32).map(|i| (i * 37 % 251) as u8).collect();
    let expected: Vec<i16> = stream.chunks_exact(2).map(|p| i16::from_le_bytes([p[0], p[1]])).collect();
    for cut in [1usize, 2, 3, 7, 64, 999, 4096] {
        let mut d = PcmDecoder::new();
        let mut got = Vec::new();
        for piece in stream.chunks(cut) {
            got.extend(d.push_bytes(piece));
        }
        assert_eq!(got, expected, "reads of {} bytes", cut);
    }
    let mut d = PcmDecoder::new();
    assert!(d.push_bytes(&[0x34]).is_empty());
    assert_eq!(d.push_bytes(&[0x12, 0xff]), vec![0x1234]);
    assert_eq!(d.push_bytes(&[0xff]), vec![-1]);
    assert!(d.push_bytes(&[]).is_empty());
}

#[test]
fn capture_source_per_attempt() {
    assert_eq!(attempt_source(AudioSourceMode::Auto, false), AudioSourceMode::Monitor);
    assert_eq!(attempt_source(AudioSourceMode::Auto, true), AudioSourceMode::Mic);
    assert_eq!(attempt_source(AudioSourceMode::Monitor, true), AudioSourceMode::Monitor);
    assert_eq!(attempt_source(AudioSourceMode::Mic, false), AudioSourceMode::Mic);
}

#[test]
fn only_a_silent_monitor_attempt_counts_as_failed() {
    assert!(failed_monitor_attempt(AudioSourceMode::Monitor, false));
    assert!(!failed_monitor_attempt(AudioSourceMode::Monitor, true));
    assert!(!failed_monitor_attempt(AudioSourceMode::Mic, false));
    assert!(!failed_monitor_attempt(AudioSourceMode::Auto, false));
}

#[test]
fn count_is_samples_pushed_since_clear_up_to_capacity() {
    let mut rb = RingBuffer::new();
    rb.push_slice(&vec![1i16; 1000]);
    rb.push_slice(&vec![2i16; 500]);
    assert_eq!(rb.count(), 1500);
    rb.clear();
    assert_eq!(rb.count(), 0);
    rb.push_slice(&vec![3i16; RING_CAPACITY - 10]);
    rb.push_slice(&vec![4i16; 30]);
    assert_eq!(rb.count(), RING_CAPACITY);
    let all = rb.extract_recent(RING_CAPACITY);
    assert_eq!(all[RING_CAPACITY - 30..], vec![4i16; 30][..]);
    assert_eq!(all[0], 3);
    rb.clear();
    rb.push_slice(&[5, 6, 7]);
    assert_eq!(rb.count(), 3);
    assert_eq!(rb.extract_recent(10), vec![5, 6, 7]);
}
