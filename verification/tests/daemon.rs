use shazam_daemon::audio::capture::AudioSourceMode;
use shazam_daemon::daemon::{
    found_display, html_escape, parse_pid, sample_duration_ms, source_mode_from_lowercase,
    source_mode_from_name, split_current_song,
    DaemonState, RecognitionEffect, ToggleEffect,
};
use shazam_daemon::network::models::RecognizedSong;

fn song(title: &str, artist: &str) -> RecognizedSong {
    RecognizedSong {
        title: title.to_string(),
        artist: artist.to_string(),
        album: None,
        genre: None,
        isrc: None,
        shazam_key: None,
        cover_art_url: None,
        cover_art_hq_url: None,
        offset_seconds: None,
        preview_audio_url: None,
        share_url: None,
        lyrics: None,
    }
}

#[test]
fn html_escape_replaces_markup_characters() {
    assert_eq!(
        html_escape("<a href=\"x\">Tom & Jerry's</a>"),
        "&lt;a href=&quot;x&quot;&gt;Tom &amp; Jerry&#39;s&lt;/a&gt;"
    );
    assert_eq!(html_escape("plain"), "plain");
    assert_eq!(html_escape(""), "");
    assert_eq!(html_escape("&amp;"), "&amp;amp;");
    assert_eq!(html_escape("Ünïcödé ♪"), "Ünïcödé ♪");
}

#[test]
fn html_escape_matches_chained_replacement() {
    for s in ["a&b<c>d\"e'f", "&&<<>>", "x'&'y", "&lt;"] {
        let chained = s
            .replace('&', "&amp;")
            .replace('<', "&lt;")
            .replace('>', "&gt;")
            .replace('"', "&quot;")
            .replace('\'', "&#39;");
        assert_eq!(html_escape(s), chained);
    }
}

#[test]
fn escaped_text_has_no_markup() {
    let escaped = html_escape("<>\"'&<script>");
    assert!(!escaped.contains('<') && !escaped.contains('>'));
    assert!(!escaped.contains('"') && !escaped.contains('\''));
}

#[test]
fn found_display_texts() {
    let mut s = song("  Bohemian Rhapsody (Remastered 2011)", "Queen & Co");
    let (text, tooltip) = found_display(&s);
    assert_eq!(text, "\u{f04c5} Bohemian Rhapsody");
    assert_eq!(
        tooltip,
        "<span size='13000' weight='bold'>  Bohemian Rhapsody (Remastered 2011)</span>\n<span size='11000' color='#cccccc'><i>by</i> Queen &amp; Co</span>"
    );
    s.album = Some("A Night <at> the Opera".to_string());
    s.genre = Some("Rock".to_string());
    let (_, tooltip) = found_display(&s);
    assert!(tooltip.ends_with("</span>\n<b>Album:</b> A Night &lt;at&gt; the Opera\n<b>Genre:</b> Rock"));
    let (text, _) = found_display(&song("(Intro)", "x"));
    assert_eq!(text, "\u{f04c5} ");
}

#[test]
fn pid_files_parse_like_i32() {
    assert_eq!(parse_pid("1234\n"), Some(1234));
    assert_eq!(parse_pid("  42  "), Some(42));
    assert_eq!(parse_pid("+7"), Some(7));
    assert_eq!(parse_pid("-7"), Some(-7));
    assert_eq!(parse_pid("2147483647"), Some(i32::MAX));
    assert_eq!(parse_pid("-2147483648"), Some(i32::MIN));
    assert_eq!(parse_pid("2147483648"), None);
    assert_eq!(parse_pid("-2147483649"), None);
    assert_eq!(parse_pid("99999999999999999999"), None);
    assert_eq!(parse_pid(""), None);
    assert_eq!(parse_pid("-"), None);
    assert_eq!(parse_pid("+"), None);
    assert_eq!(parse_pid("12a"), None);
    assert_eq!(parse_pid("1 2"), None);
    assert_eq!(parse_pid("007"), Some(7));
    for s in ["0", "-0", "123", "+-1", "--1", " 5\t", "\u{3000}9"] {
        assert_eq!(parse_pid(s), s.trim().parse::<i32>().ok(), "{:?}", s);
    }
}

#[test]
fn source_modes_by_name() {
    assert_eq!(source_mode_from_name("monitor"), AudioSourceMode::Monitor);
    assert_eq!(source_mode_from_name("MONITOR"), AudioSourceMode::Monitor);
    assert_eq!(source_mode_from_name("Mic"), AudioSourceMode::Mic);
    assert_eq!(source_mode_from_name("auto"), AudioSourceMode::Auto);
    assert_eq!(source_mode_from_name("speaker"), AudioSourceMode::Auto);
    assert_eq!(source_mode_from_lowercase("mic"), AudioSourceMode::Mic);
    assert_eq!(source_mode_from_lowercase("MIC"), AudioSourceMode::Auto);
    assert_eq!(source_mode_from_lowercase("monitor"), AudioSourceMode::Monitor);
}

#[test]
fn sample_durations() {
    assert_eq!(sample_duration_ms(48000), 3000);
    assert_eq!(sample_duration_ms(15), 0);
    assert_eq!(sample_duration_ms(192017), 12001);
}

#[test]
fn toggling_flips_listening_and_forgets_song() {
    let mut st = DaemonState::new();
    assert!(!st.is_listening);
    assert_eq!(st.toggle(), ToggleEffect::StartListening);
    assert!(st.is_listening);
    st.last_detected_id = "A - B".to_string();
    assert_eq!(st.toggle(), ToggleEffect::StopListening);
    assert!(!st.is_listening);
    assert_eq!(st.last_detected_id, "");
}

#[test]
fn analysis_needs_listening_and_three_seconds() {
    let mut st = DaemonState::new();
    assert!(!st.should_analyze(100000));
    st.toggle();
    assert!(!st.should_analyze(47999));
    assert!(st.should_analyze(48000));
}

#[test]
fn recognition_outcomes() {
    let mut st = DaemonState::new();
    st.toggle();
    assert_eq!(st.on_recognition(None), RecognitionEffect::KeepListening);
    assert_eq!(st.miss_count, 1);
    assert_eq!(st.on_recognition(Some("A - B".to_string())), RecognitionEffect::NewSong);
    assert_eq!(st.miss_count, 0);
    assert_eq!(st.on_recognition(Some("A - B".to_string())), RecognitionEffect::SameSong);
    assert_eq!(st.on_recognition(None), RecognitionEffect::KeepListening);
    assert_eq!(st.on_recognition(None), RecognitionEffect::KeepListening);
    assert_eq!(st.on_recognition(None), RecognitionEffect::ForgetSong);
    assert_eq!(st.last_detected_id, "");
    assert_eq!(st.on_recognition(None), RecognitionEffect::KeepListening);
    assert_eq!(st.on_recognition(Some("C - D".to_string())), RecognitionEffect::NewSong);
    assert_eq!(st.last_detected_id, "C - D");
}

#[test]
fn three_misses_always_forget() {
    for start in [0u32, 1, 2, 5, u32::MAX - 1, u32::MAX] {
        let mut st = DaemonState::new();
        st.last_detected_id = "X - Y".to_string();
        st.miss_count = start;
        for _ in 0..3 {
            st.on_recognition(None);
        }
        assert_eq!(st.last_detected_id, "");
    }
}

#[test]
fn current_song_file_splits_at_first_separator() {
    assert_eq!(split_current_song("Title - Artist"), Some(("Title".to_string(), "Artist".to_string())));
    assert_eq!(split_current_song(" A - B - C \n"), Some(("A".to_string(), "B - C".to_string())));
    assert_eq!(split_current_song("no separator"), None);
    assert_eq!(split_current_song(""), None);
    assert_eq!(split_current_song(" - "), Some((String::new(), String::new())));
    assert_eq!(split_current_song("x-y"), None);
    for t in ["a - b", "  - b", "a -b - c", "ab"] {
        let expected = t.split_once(" - ").map(|(a, b)| (a.trim().to_string(), b.trim().to_string()));
        assert_eq!(split_current_song(t), expected);
    }
}

#[test]
fn pid_file_round_trip() {
    for pid in [0u32, 1, 9, 10, 4321, 2147483647] {
        assert_eq!(parse_pid(&pid.to_string()), Some(pid as i32));
    }
}

fn unescape(t: &str) -> String {
    let mut out = String::new();
    let mut rest = t;
    while let Some(c) = rest.chars().next() {
        let mut matched = false;
        for (entity, ch) in [("&amp;", '&'), ("&lt;", '<'), ("&gt;", '>'), ("&quot;", '"'), ("&#39;", '\'')] {
            if rest.starts_with(entity) {
                out.push(ch);
                rest = &rest[entity.len()..];
                matched = true;
                break;
            }
        }
        if !matched {
            out.push(c);
            rest = &rest[c.len_utf8()..];
        }
    }
    out
}

#[test]
fn unescaping_gives_back_the_text() {
    assert_eq!(html_escape("<"), "&lt;");
    assert_eq!(html_escape("&lt;"), "&amp;lt;");
    for s in ["", "<b>&amp;</b>", "Tom & Jerry's \"show\"", "&#39;&", "ünï <♪>"] {
        assert_eq!(unescape(&html_escape(s)), s);
    }
}
