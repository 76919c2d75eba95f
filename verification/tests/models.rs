use shazam_daemon::network::client::tag_url;
use shazam_daemon::network::models::{
    F64Bits, HubAction, MatchItem, RecognizedSong, SectionMetadata, ShazamResponse, TrackGenres,
    TrackHub, TrackImages, TrackItem, TrackSection, TrackShare,
};

fn s(x: &str) -> Option<String> {
    Some(x.to_string())
}

fn empty_track() -> TrackItem {
    TrackItem {
        key: None,
        title: None,
        subtitle: None,
        isrc: None,
        images: None,
        share: None,
        hub: None,
        sections: None,
        genres: None,
        url: None,
    }
}

fn action(kind: &str, uri: &str) -> HubAction {
    HubAction { name: None, action_type: s(kind), id: None, uri: s(uri) }
}

fn meta(title: &str, text: &str) -> SectionMetadata {
    SectionMetadata { title: s(title), text: s(text) }
}

fn full_response() -> ShazamResponse {
    let mut track = empty_track();
    track.key = s("12345");
    track.title = s("Song");
    track.subtitle = s("Artist");
    track.isrc = s("USABC1234567");
    track.images = Some(TrackImages { background: None, coverart: s("http://c/a.jpg"), coverarthq: s("http://c/hq.jpg"), joecolor: None });
    track.share = Some(TrackShare { subject: None, text: None, href: s("http://share"), image: None, twitter: None, html: None, avatar: None, snapchat: None });
    track.hub = Some(TrackHub {
        actions: Some(vec![
            action("applemusicplay", "https://x.m4a"),
            action("uri", "https://example.com/video.mp4"),
            action("uri", "https://audio-ssl.itunes.apple.com/preview"),
            action("uri", "https://later.m4a"),
        ]),
        options: Some(vec!["{\"caption\":\"OPEN\"}".to_string()]),
    });
    track.sections = Some(vec![
        TrackSection {
            section_type: s("SONG"),
            text: None,
            metadata: Some(vec![meta("Album", "First"), meta("Label", "L"), meta("ALBUM", "Second")]),
        },
        TrackSection { section_type: s("LYRICS"), text: Some(vec!["la".to_string(), "di".to_string()]), metadata: None },
        TrackSection { section_type: s("VIDEO"), text: Some(vec!["no".to_string()]), metadata: Some(vec![meta("album", "Not this")]) },
    ]);
    track.genres = Some(TrackGenres { primary: s("Pop") });
    track.url = s("http://track");
    ShazamResponse {
        matches: Some(vec![
            MatchItem { id: s("1"), offset: Some(F64Bits { bits: 12.5f64.to_bits() }), frequencyskew: None, timeskew: None },
            MatchItem { id: s("2"), offset: Some(F64Bits { bits: 99.0f64.to_bits() }), frequencyskew: None, timeskew: None },
        ]),
        track: Some(track),
        tagid: s("tag"),
    }
}

#[test]
fn reply_without_track_gives_no_song() {
    let resp = ShazamResponse { matches: Some(vec![]), track: None, tagid: s("t") };
    assert_eq!(RecognizedSong::from_shazam_response(resp), None);
}

#[test]
fn full_reply_is_consolidated() {
    let song = RecognizedSong::from_shazam_response(full_response()).unwrap();
    assert_eq!(song.title, "Song");
    assert_eq!(song.artist, "Artist");
    assert_eq!(song.album, s("Second"));
    assert_eq!(song.genre, s("Pop"));
    assert_eq!(song.isrc, s("USABC1234567"));
    assert_eq!(song.shazam_key, s("12345"));
    assert_eq!(song.cover_art_url, s("http://c/a.jpg"));
    assert_eq!(song.cover_art_hq_url, s("http://c/hq.jpg"));
    assert_eq!(song.offset_seconds.map(|o| f64::from_bits(o.bits)), Some(12.5));
    assert_eq!(song.preview_audio_url, s("https://audio-ssl.itunes.apple.com/preview"));
    assert_eq!(song.share_url, s("http://share"));
    assert_eq!(song.lyrics, Some(vec!["la".to_string(), "di".to_string()]));
    assert_eq!(song.display_id(), "Song - Artist");
}

#[test]
fn bare_track_uses_defaults_and_fallbacks() {
    let mut track = empty_track();
    track.images = Some(TrackImages { background: None, coverart: s("c"), coverarthq: None, joecolor: None });
    track.share = Some(TrackShare { subject: None, text: None, href: None, image: None, twitter: None, html: None, avatar: None, snapchat: None });
    track.url = s("u");
    track.hub = Some(TrackHub { actions: Some(vec![action("uri", "https://x.m4a")]), options: None });
    let song = RecognizedSong::from_shazam_response(ShazamResponse { matches: None, track: Some(track), tagid: None }).unwrap();
    assert_eq!(song.title, "Unknown Title");
    assert_eq!(song.artist, "Unknown Artist");
    assert_eq!(song.album, None);
    assert_eq!(song.lyrics, None);
    assert_eq!(song.cover_art_hq_url, s("c"));
    assert_eq!(song.share_url, s("u"));
    assert_eq!(song.offset_seconds, None);
    assert_eq!(song.preview_audio_url, s("https://x.m4a"));
    assert_eq!(song.display_id(), "Unknown Title - Unknown Artist");
}

#[test]
fn later_album_line_without_text_clears_album() {
    let mut track = empty_track();
    track.sections = Some(vec![
        TrackSection { section_type: s("SONG"), text: None, metadata: Some(vec![meta("album", "A")]) },
        TrackSection { section_type: s("SONG"), text: None, metadata: Some(vec![SectionMetadata { title: s("aLbUm"), text: None }]) },
        TrackSection { section_type: s("LYRICS"), text: None, metadata: None },
    ]);
    let song = RecognizedSong::from_shazam_response(ShazamResponse { matches: Some(vec![]), track: Some(track), tagid: None }).unwrap();
    assert_eq!(song.album, None);
    assert_eq!(song.lyrics, None);
    assert_eq!(song.offset_seconds, None);
}

#[test]
fn album_title_must_match_whole_word() {
    let mut track = empty_track();
    track.sections = Some(vec![TrackSection {
        section_type: s("SONG"),
        text: None,
        metadata: Some(vec![meta("Albums", "X"), meta("albüm", "Y"), meta("album ", "Z")]),
    }]);
    let song = RecognizedSong::from_shazam_response(ShazamResponse { matches: None, track: Some(track), tagid: None }).unwrap();
    assert_eq!(song.album, None);
}

#[test]
fn tag_url_embeds_both_identifiers() {
    assert_eq!(
        tag_url("AAAA-BBBB", "cccc-dddd"),
        "https://amp.shazam.com/discovery/v5/en/US/android/-/tag/AAAA-BBBB/cccc-dddd?sync=true&webv3=true&sampling=true&connected=&shazamapiversion=v3&sharehub=true&video=v3"
    );
}
