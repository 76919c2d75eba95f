use shazam_daemon::mpris::player::{
    command_toggles, download_reply, join_lines, metadata_entries, no_current_song_reply,
    playback_status, preview_url, MetaValue, PlayerCommand,
};
use shazam_daemon::network::models::{F64Bits, RecognizedSong};

fn song() -> RecognizedSong {
    RecognizedSong {
        title: "T".to_string(),
        artist: "A".to_string(),
        album: Some("Al".to_string()),
        genre: Some("G".to_string()),
        isrc: None,
        shazam_key: Some("42".to_string()),
        cover_art_url: Some("c".to_string()),
        cover_art_hq_url: None,
        offset_seconds: Some(F64Bits { bits: 1.5f64.to_bits() }),
        preview_audio_url: Some("p".to_string()),
        share_url: None,
        lyrics: Some(vec!["l1".to_string(), "l2".to_string()]),
    }
}

fn text(v: &MetaValue) -> String {
    match v {
        MetaValue::Text(s) => s.clone(),
        _ => panic!("not a text"),
    }
}

#[test]
fn metadata_of_current_song() {
    let entries = metadata_entries(Some(&song()), "ok");
    let keys: Vec<&str> = entries.iter().map(|(k, _)| k.as_str()).collect();
    assert_eq!(keys, vec!["mpris:trackid", "shazam:engineStatus", "xesam:title", "xesam:artist", "xesam:album", "xesam:genre", "mpris:artUrl", "xesam:artUrl", "shazam:offset", "shazam:previewUrl", "shazam:lyrics"]);
    assert_eq!(text(&entries[0].1), "/org/mpris/MediaPlayer2/Track/42");
    assert_eq!(text(&entries[1].1), "ok");
    match &entries[3].1 {
        MetaValue::Texts(v) => assert_eq!(v, &vec!["A".to_string()]),
        _ => panic!(),
    }
    assert_eq!(text(&entries[6].1), "c");
    match &entries[8].1 {
        MetaValue::Number(n) => assert_eq!(f64::from_bits(n.bits), 1.5),
        _ => panic!(),
    }
    assert_eq!(text(&entries[10].1), "l1\nl2");
}

#[test]
fn metadata_without_song_or_key() {
    let entries = metadata_entries(None, "idle");
    assert_eq!(entries.len(), 2);
    assert_eq!(entries[0].0, "shazam:engineStatus");
    assert_eq!(text(&entries[0].1), "idle");
    assert_eq!(text(&entries[1].1), "/org/mpris/MediaPlayer2/Track/none");
    let mut bare = song();
    bare.shazam_key = None;
    let entries = metadata_entries(Some(&bare), "s");
    assert_eq!(text(&entries[0].1), "/org/mpris/MediaPlayer2/Track/0");
}

#[test]
fn joining_lyrics() {
    assert_eq!(join_lines(&vec![]), "");
    assert_eq!(join_lines(&vec!["one".to_string()]), "one");
    assert_eq!(join_lines(&vec!["a".to_string(), "".to_string(), "c".to_string()]), "a\n\nc");
}

#[test]
fn status_and_commands() {
    assert_eq!(playback_status(Some(&song())), "Playing");
    assert_eq!(playback_status(None), "Paused");
    assert!(command_toggles(PlayerCommand::Play, false));
    assert!(!command_toggles(PlayerCommand::Play, true));
    assert!(command_toggles(PlayerCommand::Pause, true));
    assert!(!command_toggles(PlayerCommand::Pause, false));
    assert!(command_toggles(PlayerCommand::Stop, true));
    assert!(!command_toggles(PlayerCommand::Stop, false));
    assert!(command_toggles(PlayerCommand::PlayPause, false));
    assert!(command_toggles(PlayerCommand::PlayPause, true));
}

#[test]
fn replies() {
    assert_eq!(download_reply(&Ok("/m/x.m4a".to_string())), "Success: Downloaded to /m/x.m4a");
    assert_eq!(download_reply(&Err("boom".to_string())), "Error: boom");
    assert_eq!(no_current_song_reply(), "Error: No song currently recognized");
    assert_eq!(preview_url(Some(&song())), "p");
    assert_eq!(preview_url(None), "");
}
