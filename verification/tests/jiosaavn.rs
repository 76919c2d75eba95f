use shazam_daemon::downloader::jiosaavn::{
    clean_names, download_file_name, encrypted_media_url_of, first_result, hq_artwork_url, safe_file_component,
    search_query, stream_url_from_reply, JioSaavnSong,
};

fn result(name: &str) -> JioSaavnSong {
    JioSaavnSong {
        id: None,
        song: Some(name.to_string()),
        primary_artists: None,
        singers: Some("Singer".to_string()),
        album: None,
        year: None,
        image: None,
        encrypted_media_url: None,
    }
}

#[test]
fn query_and_first_result() {
    assert_eq!(search_query("Song", "Artist"), "Song Artist");
    assert!(first_result(None).is_none());
    assert!(first_result(Some(vec![])).is_none());
    let r = first_result(Some(vec![result("a"), result("b")])).unwrap();
    assert_eq!(r.song.as_deref(), Some("a"));
}

#[test]
fn stream_url_choices() {
    assert_eq!(stream_url_from_reply(Some("t".into()), Some("d".into()), "200 OK", "{}"), Ok("t".to_string()));
    assert_eq!(stream_url_from_reply(None, Some("d".into()), "200 OK", "{}"), Ok("d".to_string()));
    assert_eq!(
        stream_url_from_reply(None, None, "403 Forbidden", "{\"status\":\"failure\"}"),
        Err("HTTP 403 Forbidden - Server returned: {\"status\":\"failure\"}".to_string())
    );
}

#[test]
fn file_names_are_made_safe() {
    assert_eq!(safe_file_component("a/b\\c:d*e?f\"g<h>i|j"), "a_b_c_d_e_f_g_h_i_j");
    assert_eq!(safe_file_component("Ünï ♪"), "Ünï ♪");
    assert_eq!(download_file_name("AC/DC?", "Back: In"), "AC_DC_ - Back_ In.m4a");
}

#[test]
fn names_fall_back_to_request() {
    let (t, a) = clean_names(&result("Cat"), "Req", "ReqA");
    assert_eq!((t.as_str(), a.as_str()), ("Cat", "Singer"));
    let mut r = result("x");
    r.song = None;
    r.singers = None;
    let (t, a) = clean_names(&r, "Req", "ReqA");
    assert_eq!((t.as_str(), a.as_str()), ("Req", "ReqA"));
    r.primary_artists = Some("Prim".into());
    r.singers = Some("Sing".into());
    assert_eq!(clean_names(&r, "Req", "ReqA").1, "Prim");
}

#[test]
fn artwork_links_are_upgraded() {
    assert_eq!(hq_artwork_url("https://c.saavncdn.com/x-150x150.jpg"), "https://c.saavncdn.com/x-500x500.jpg");
    assert_eq!(hq_artwork_url("https://c/x-50x50.jpg"), "https://c/x-500x500.jpg");
    assert_eq!(hq_artwork_url("https://c/x.png"), "https://c/x.png");
    for u in ["a150x150.jpg50x50.jpg", "5050x50.jpg", "150x150.jpg150x150.jpg", ""] {
        assert_eq!(hq_artwork_url(u), u.replace("150x150.jpg", "500x500.jpg").replace("50x50.jpg", "500x500.jpg"));
    }
}

#[test]
fn first_download_step() {
    assert_eq!(encrypted_media_url_of(None).unwrap_err(), "No match found on JioSaavn");
    assert_eq!(encrypted_media_url_of(Some(result("a"))).unwrap_err(), "No media URL in JioSaavn metadata");
    let mut r = result("a");
    r.encrypted_media_url = Some("enc".into());
    let (song, url) = encrypted_media_url_of(Some(r)).unwrap();
    assert_eq!(url, "enc");
    assert_eq!(song.song.as_deref(), Some("a"));
    assert_eq!(song.encrypted_media_url.as_deref(), Some("enc"));
}
