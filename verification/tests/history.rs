use shazam_daemon::history::storage::{data_dir, join_path, HistoryStorage, SearchFields};
use shazam_daemon::network::models::{F64Bits, RecognizedSong};

fn song() -> RecognizedSong {
    RecognizedSong {
        title: "Title".to_string(),
        artist: "Artist".to_string(),
        album: Some("Album".to_string()),
        genre: None,
        isrc: Some("ISRC".to_string()),
        shazam_key: None,
        cover_art_url: Some("plain".to_string()),
        cover_art_hq_url: None,
        offset_seconds: None,
        preview_audio_url: None,
        share_url: Some("share".to_string()),
        lyrics: None,
    }
}

fn fields(title: &str, artist: &str, album: &str, genre: &str) -> SearchFields {
    SearchFields { title: title.to_string(), artist: artist.to_string(), album: album.to_string(), genre: genre.to_string() }
}

fn lines(xs: &[&str]) -> Vec<String> {
    xs.iter().map(|x| x.to_string()).collect()
}

#[test]
fn data_directory_choice() {
    assert_eq!(data_dir(Some("/home/u")), "/home/u/.local/share");
    assert_eq!(data_dir(Some("/home/u/")), "/home/u/.local/share");
    assert_eq!(data_dir(None), "/tmp");
    assert_eq!(data_dir(Some("")), ".local/share");
    let st = HistoryStorage::in_dir(&data_dir(Some("/home/u")));
    assert_eq!(st.txt_path, "/home/u/.local/share/shazam_history.txt");
    assert_eq!(st.jsonl_path, "/home/u/.local/share/shazam_history.jsonl");
}

#[test]
fn joins_like_path_join() {
    for (base, rel) in [("/a", "b"), ("/a/", "b"), ("", "b"), ("a", "b/c")] {
        let expected = std::path::PathBuf::from(base).join(rel);
        assert_eq!(join_path(base, rel), expected.to_str().unwrap());
    }
    let st = HistoryStorage::in_dir("/data");
    assert_eq!(st.txt_path, "/data/shazam_history.txt");
    assert_eq!(st.jsonl_path, "/data/shazam_history.jsonl");
}

#[test]
fn text_log_line_format() {
    assert_eq!(HistoryStorage::text_log_line("2024-01-02 03:04:05", &song()), "[2024-01-02 03:04:05] Artist - Title");
}

#[test]
fn log_record_defaults() {
    let r = HistoryStorage::log_record("now", &song());
    assert_eq!(r.timestamp, "now");
    assert_eq!(r.album, "Album");
    assert_eq!(r.genre, "");
    assert_eq!(r.isrc, "ISRC");
    assert_eq!(r.shazam_key, "");
    assert_eq!(r.cover_art, "plain");
    assert_eq!(r.offset, F64Bits { bits: 0 });
    assert_eq!(f64::from_bits(r.offset.bits), 0.0);
    assert_eq!(r.youtube_url, "");
    assert_eq!(r.share_url, "share");
    assert!(r.lyrics.is_empty());
    let mut hq = song();
    hq.cover_art_hq_url = Some("hq".to_string());
    hq.offset_seconds = Some(F64Bits { bits: 7.25f64.to_bits() });
    hq.lyrics = Some(lines(&["a", "b"]));
    let r = HistoryStorage::log_record("now", &hq);
    assert_eq!(r.cover_art, "hq");
    assert_eq!(f64::from_bits(r.offset.bits), 7.25);
    assert_eq!(r.lyrics, lines(&["a", "b"]));
}

#[test]
fn queries_are_trimmed_and_lowercased() {
    assert_eq!(HistoryStorage::normalized_query("  Hello WORLD \n"), "hello world");
    assert_eq!(HistoryStorage::normalized_query("   "), "");
    assert_eq!(HistoryStorage::normalized_query("ÉCOLE"), "école");
}

#[test]
fn newest_lines_first() {
    let l = lines(&["1", "2", "3", "4"]);
    assert_eq!(HistoryStorage::newest_lines(l.clone(), 2), lines(&["4", "3"]));
    assert_eq!(HistoryStorage::newest_lines(l.clone(), 10), lines(&["4", "3", "2", "1"]));
    assert_eq!(HistoryStorage::newest_lines(l, 0), Vec::<String>::new());
}

#[test]
fn recent_nonblank_skips_blank_lines() {
    let l = lines(&["a", "  ", "b", "", "c", "\t"]);
    assert_eq!(HistoryStorage::recent_nonblank(l.clone(), 2), lines(&["c", "b"]));
    assert_eq!(HistoryStorage::recent_nonblank(l, 100), lines(&["c", "b", "a"]));
}

#[test]
fn search_finds_matches_newest_first_up_to_cap() {
    let records = vec![
        fields("Hello", "A", "", ""),
        fields("Other", "B", "", ""),
        fields("x", "HELLO kitty", "", ""),
        fields("y", "z", "Say hello", ""),
        fields("q", "r", "s", "hello-pop"),
    ];
    assert_eq!(HistoryStorage::matching_newest(&records, "hello", 50), vec![4, 3, 2, 0]);
    assert_eq!(HistoryStorage::matching_newest(&records, "hello", 2), vec![4, 3]);
    assert_eq!(HistoryStorage::matching_newest(&records, "", 3), vec![4, 3, 2]);
    assert_eq!(HistoryStorage::matching_newest(&records, "nothing", 50), Vec::<usize>::new());
    assert!(HistoryStorage::matches(&records[2], "kitty"));
    assert!(!HistoryStorage::matches(&records[1], "kitty"));
}

#[test]
fn lowered_fields_and_matching() {
    let f = fields("ÀBC", "Dé", "X", "");
    let l = HistoryStorage::lowercased(&f);
    assert_eq!((l.title.as_str(), l.artist.as_str(), l.album.as_str(), l.genre.as_str()), ("àbc", "dé", "x", ""));
    assert!(HistoryStorage::matches_lowered(&l, "bc"));
    assert!(!HistoryStorage::matches_lowered(&f, "bc"));
    assert!(HistoryStorage::matches(&f, "àb"));
    assert!(HistoryStorage::matches_lowered(&l, ""));
}

#[test]
fn search_ignores_case_and_surrounding_white_space() {
    let records = vec![
        fields("Hello", "A", "", ""),
        fields("Other", "B", "", ""),
        fields("x", "HELLO kitty", "", ""),
    ];
    let plain = HistoryStorage::normalized_query("hello");
    let padded = HistoryStorage::normalized_query(&format!("  {}  ", "hello".to_ascii_uppercase()));
    assert_eq!(plain, padded);
    assert_eq!(
        HistoryStorage::matching_newest(&records, &plain, 50),
        HistoryStorage::matching_newest(&records, &padded, 50)
    );
    assert_eq!(HistoryStorage::matching_newest(&records, &padded, 50), vec![2, 0]);
}

#[test]
fn newest_line_after_logging_is_the_logged_one() {
    let before = lines(&["1", "2", "3"]);
    let mut after = before.clone();
    after.push("4".to_string());
    let listed = HistoryStorage::newest_lines(after, 2);
    assert_eq!(listed[0], "4");
    assert_eq!(listed[1..].to_vec(), HistoryStorage::newest_lines(before, 1));
}
