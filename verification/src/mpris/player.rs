use vstd::prelude::*;
use crate::network::models::{F64Bits, RecognizedSong};
use crate::text::{concat, owned};

verus! {

/// A value of the MPRIS metadata map.
#[derive(Debug, Clone)]
pub enum MetaValue {
    Text(String),
    Texts(Vec<String>),
    Number(F64Bits),
}

/// Abstract form of a metadata value.
pub ghost enum MetaView {
    Text(Seq<char>),
    Texts(Seq<Seq<char>>),
    Number(F64Bits),
}

impl View for MetaValue {
    type V = MetaView;

    open spec fn view(&self) -> MetaView {
        match self {
            MetaValue::Text(s) => MetaView::Text(s@),
            MetaValue::Texts(v) => MetaView::Texts(v@.map_values(|s: String| s@)),
            MetaValue::Number(n) => MetaView::Number(*n),
        }
    }
}

/// Abstract form of a metadata map entry.
pub open spec fn entry_view(e: (String, MetaValue)) -> (Seq<char>, MetaView) {
    (e.0@, e.1@)
}

/// The lines joined by `sep`.
pub open spec fn joined(lines: Seq<Seq<char>>, sep: Seq<char>) -> Seq<char>
    decreases lines.len(),
{
    if lines.len() == 0 {
        seq![]
    } else if lines.len() == 1 {
        lines[0]
    } else {
        joined(lines.drop_last(), sep) + sep + lines.last()
    }
}

/// One text entry when the value is present, else nothing.
pub open spec fn optional_entry(key: Seq<char>, value: Option<String>) -> Seq<(Seq<char>, MetaView)> {
    match value {
        Some(v) => seq![(key, MetaView::Text(v@))],
        None => seq![],
    }
}

/// The artwork link: the high-quality one, or else the plain one.
pub open spec fn art_url(song: RecognizedSong) -> Option<String> {
    if song.cover_art_hq_url is Some {
        song.cover_art_hq_url
    } else {
        song.cover_art_url
    }
}

/// Track id, engine status, title and artist of a current song.
pub open spec fn head_entries(s: RecognizedSong, status: Seq<char>) -> Seq<(Seq<char>, MetaView)> {
    seq![
        ("mpris:trackid"@, MetaView::Text("/org/mpris/MediaPlayer2/Track/"@ + match s.shazam_key {
            Some(k) => k@,
            None => "0"@,
        })),
        ("shazam:engineStatus"@, MetaView::Text(status)),
        ("xesam:title"@, MetaView::Text(s.title@)),
        ("xesam:artist"@, MetaView::Texts(seq![s.artist@])),
    ]
}

/// The genre entry, if the song has a genre.
pub open spec fn genre_entries(s: RecognizedSong) -> Seq<(Seq<char>, MetaView)> {
    match s.genre {
        Some(g) => seq![("xesam:genre"@, MetaView::Texts(seq![g@]))],
        None => seq![],
    }
}

/// The two artwork entries, if the song has artwork.
pub open spec fn art_entries(s: RecognizedSong) -> Seq<(Seq<char>, MetaView)> {
    match art_url(s) {
        Some(u) => seq![("mpris:artUrl"@, MetaView::Text(u@)), ("xesam:artUrl"@, MetaView::Text(u@))],
        None => seq![],
    }
}

/// The offset entry, if the song has an offset.
pub open spec fn offset_entries(s: RecognizedSong) -> Seq<(Seq<char>, MetaView)> {
    match s.offset_seconds {
        Some(o) => seq![("shazam:offset"@, MetaView::Number(o))],
        None => seq![],
    }
}

/// The lyrics entry, if the song has lyrics: the lines joined by newlines.
pub open spec fn lyrics_entries(s: RecognizedSong) -> Seq<(Seq<char>, MetaView)> {
    match s.lyrics {
        Some(l) => seq![("shazam:lyrics"@, MetaView::Text(joined(l@.map_values(|x: String| x@), "\n"@)))],
        None => seq![],
    }
}

/// The metadata that the player publishes: for a current song its track
/// id, the engine status, title, artist, then whichever of album, genre,
/// artwork (under two keys), ISRC, offset, preview link, share link and
/// lyrics it has; without a song the engine status and the track id "none".
pub open spec fn metadata_view(song: Option<RecognizedSong>, status: Seq<char>) -> Seq<(Seq<char>, MetaView)> {
    match song {
        Some(s) => head_entries(s, status) + optional_entry("xesam:album"@, s.album) + genre_entries(s)
            + art_entries(s) + optional_entry("shazam:isrc"@, s.isrc) + offset_entries(s)
            + optional_entry("shazam:previewUrl"@, s.preview_audio_url) + optional_entry(
            "shazam:shareUrl"@,
            s.share_url,
        ) + lyrics_entries(s),
        None => seq![
            ("shazam:engineStatus"@, MetaView::Text(status)),
            ("mpris:trackid"@, MetaView::Text("/org/mpris/MediaPlayer2/Track/none"@)),
        ],
    }
}

/// The abstract form of metadata entries.
pub open spec fn entries_view(entries: Seq<(String, MetaValue)>) -> Seq<(Seq<char>, MetaView)> {
    entries.map_values(|e: (String, MetaValue)| entry_view(e))
}

/// The lines joined by newlines.
pub fn join_lines(lines: &Vec<String>) -> (r: String)
    ensures
        r@ == joined(lines@.map_values(|x: String| x@), "\n"@),
{
    let ghost all = lines@.map_values(|x: String| x@);
    let mut r = String::new();
    let mut i: usize = 0;
    while i < lines.len()
        invariant
            i <= lines.len(),
            all == lines@.map_values(|x: String| x@),
            r@ == joined(all.take(i as int), "\n"@),
        decreases lines.len() - i,
    {
        assert(all.take(i + 1).drop_last() =~= all.take(i as int));
        assert(all.take(i + 1).last() == lines@[i as int]@);
        if i > 0 {
            r.append("\n");
        } else {
            assert(all.take(1) =~= seq![lines@[0]@]);
        }
        r.append(lines[i].as_str());
        i = i + 1;
    }
    assert(all.take(lines.len() as int) =~= all);
    r
}

fn push_entries(entries: &mut Vec<(String, MetaValue)>, more: Vec<(String, MetaValue)>)
    ensures
        entries_view(final(entries)@) == entries_view(old(entries)@) + entries_view(more@),
{
    let mut more = more;
    let ghost m = more@;
    entries.append(&mut more);
    assert(entries_view(final(entries)@) =~= entries_view(old(entries)@) + entries_view(m));
}

fn text_entry(key: &str, value: &str) -> (r: Vec<(String, MetaValue)>)
    ensures
        entries_view(r@) == seq![(key@, MetaView::Text(value@))],
{
    let mut r: Vec<(String, MetaValue)> = Vec::new();
    r.push((owned(key), MetaValue::Text(owned(value))));
    assert(entries_view(r@) =~= seq![(key@, MetaView::Text(value@))]);
    r
}

fn optional_text_entry(key: &str, value: &Option<String>) -> (r: Vec<(String, MetaValue)>)
    ensures
        entries_view(r@) == optional_entry(key@, *value),
{
    match value {
        Some(v) => text_entry(key, v.as_str()),
        None => {
            let r: Vec<(String, MetaValue)> = Vec::new();
            assert(entries_view(r@) =~= optional_entry(key@, *value));
            r
        },
    }
}

fn head_entries_of(s: &RecognizedSong, status: &str) -> (r: Vec<(String, MetaValue)>)
    ensures
        entries_view(r@) == head_entries(*s, status@),
{
    let track_id = match &s.shazam_key {
        Some(k) => concat("/org/mpris/MediaPlayer2/Track/", k.as_str()),
        None => owned("/org/mpris/MediaPlayer2/Track/0"),
    };
    proof {
        reveal_strlit("/org/mpris/MediaPlayer2/Track/");
        reveal_strlit("/org/mpris/MediaPlayer2/Track/0");
        reveal_strlit("0");
        assert("/org/mpris/MediaPlayer2/Track/0"@ =~= "/org/mpris/MediaPlayer2/Track/"@ + "0"@);
    }
    let mut artists: Vec<String> = Vec::new();
    artists.push(s.artist.clone());
    assert(artists@.map_values(|x: String| x@) =~= seq![s.artist@]);
    let mut r: Vec<(String, MetaValue)> = Vec::new();
    r.push((owned("mpris:trackid"), MetaValue::Text(track_id)));
    r.push((owned("shazam:engineStatus"), MetaValue::Text(owned(status))));
    r.push((owned("xesam:title"), MetaValue::Text(s.title.clone())));
    r.push((owned("xesam:artist"), MetaValue::Texts(artists)));
    assert(entries_view(r@) =~= head_entries(*s, status@));
    r
}

fn genre_entries_of(s: &RecognizedSong) -> (r: Vec<(String, MetaValue)>)
    ensures
        entries_view(r@) == genre_entries(*s),
{
    let mut r: Vec<(String, MetaValue)> = Vec::new();
    match &s.genre {
        Some(g) => {
            let mut genres: Vec<String> = Vec::new();
            genres.push(g.clone());
            assert(genres@.map_values(|x: String| x@) =~= seq![g@]);
            r.push((owned("xesam:genre"), MetaValue::Texts(genres)));
        },
        None => {},
    }
    assert(entries_view(r@) =~= genre_entries(*s));
    r
}

fn art_entries_of(s: &RecognizedSong) -> (r: Vec<(String, MetaValue)>)
    ensures
        entries_view(r@) == art_entries(*s),
{
    let mut r: Vec<(String, MetaValue)> = Vec::new();
    let art = match &s.cover_art_hq_url {
        Some(u) => Some(u),
        None => s.cover_art_url.as_ref(),
    };
    match art {
        Some(u) => {
            r.push((owned("mpris:artUrl"), MetaValue::Text(u.clone())));
            r.push((owned("xesam:artUrl"), MetaValue::Text(u.clone())));
        },
        None => {},
    }
    assert(entries_view(r@) =~= art_entries(*s));
    r
}

fn offset_entries_of(s: &RecognizedSong) -> (r: Vec<(String, MetaValue)>)
    ensures
        entries_view(r@) == offset_entries(*s),
{
    let mut r: Vec<(String, MetaValue)> = Vec::new();
    match s.offset_seconds {
        Some(o) => {
            r.push((owned("shazam:offset"), MetaValue::Number(o)));
        },
        None => {},
    }
    assert(entries_view(r@) =~= offset_entries(*s));
    r
}

fn lyrics_entries_of(s: &RecognizedSong) -> (r: Vec<(String, MetaValue)>)
    ensures
        entries_view(r@) == lyrics_entries(*s),
{
    match &s.lyrics {
        Some(l) => {
            let text = join_lines(l);
            text_entry("shazam:lyrics", text.as_str())
        },
        None => {
            let r: Vec<(String, MetaValue)> = Vec::new();
            assert(entries_view(r@) =~= lyrics_entries(*s));
            r
        },
    }
}

/// The metadata entries that the player publishes for the current song
/// (if any) and the engine status.
pub fn metadata_entries(song: Option<&RecognizedSong>, engine_status: &str) -> (r: Vec<(String, MetaValue)>)
    ensures
        entries_view(r@) == metadata_view(
            match song {
                Some(s) => Some(*s),
                None => None,
            },
            engine_status@,
        ),
{
    match song {
        Some(s) => {
            let mut entries = head_entries_of(s, engine_status);
            push_entries(&mut entries, optional_text_entry("xesam:album", &s.album));
            push_entries(&mut entries, genre_entries_of(s));
            push_entries(&mut entries, art_entries_of(s));
            push_entries(&mut entries, optional_text_entry("shazam:isrc", &s.isrc));
            push_entries(&mut entries, offset_entries_of(s));
            push_entries(&mut entries, optional_text_entry("shazam:previewUrl", &s.preview_audio_url));
            push_entries(&mut entries, optional_text_entry("shazam:shareUrl", &s.share_url));
            push_entries(&mut entries, lyrics_entries_of(s));
            entries
        },
        None => {
            let mut entries = text_entry("shazam:engineStatus", engine_status);
            push_entries(&mut entries, text_entry("mpris:trackid", "/org/mpris/MediaPlayer2/Track/none"));
            entries
        },
    }
}

/// Playback status that the player reports: "Playing" while a song is
/// recognized, "Paused" otherwise.
pub fn playback_status(song: Option<&RecognizedSong>) -> (status: &'static str)
    ensures
        status@ == if song is Some {
            "Playing"@
        } else {
            "Paused"@
        },
{
    match song {
        Some(_) => "Playing",
        None => "Paused",
    }
}

/// A transport command received over MPRIS.
#[derive(Debug, Clone, Copy, PartialEq, Eq, Structural)]
pub enum PlayerCommand {
    Play,
    Pause,
    PlayPause,
    Stop,
}

/// Whether a command toggles the listening state: play only while paused,
/// pause and stop only while listening, play-pause always.
pub fn command_toggles(command: PlayerCommand, is_listening: bool) -> (r: bool)
    ensures
        r == match command {
            PlayerCommand::Play => !is_listening,
            PlayerCommand::Pause => is_listening,
            PlayerCommand::PlayPause => true,
            PlayerCommand::Stop => is_listening,
        },
{
    match command {
        PlayerCommand::Play => !is_listening,
        PlayerCommand::Pause => is_listening,
        PlayerCommand::PlayPause => true,
        PlayerCommand::Stop => is_listening,
    }
}

/// Reply to a download request: the saved path, or the error.
pub fn download_reply(outcome: &Result<String, String>) -> (reply: String)
    ensures
        reply@ == match outcome {
            Ok(path) => "Success: Downloaded to "@ + path@,
            Err(e) => "Error: "@ + e@,
        },
{
    match outcome {
        Ok(path) => concat("Success: Downloaded to ", path.as_str()),
        Err(e) => concat("Error: ", e.as_str()),
    }
}

/// Reply to a request to download the current song when there is none.
pub fn no_current_song_reply() -> (reply: String)
    ensures
        reply@ == "Error: No song currently recognized"@,
{
    owned("Error: No song currently recognized")
}

/// The preview link of the current song, or the empty text.
pub fn preview_url(song: Option<&RecognizedSong>) -> (url: String)
    ensures
        url@ == match song {
            Some(s) => match s.preview_audio_url {
                Some(u) => u@,
                None => Seq::<char>::empty(),
            },
            None => Seq::<char>::empty(),
        },
{
    match song {
        Some(s) => match &s.preview_audio_url {
            Some(u) => u.clone(),
            None => String::new(),
        },
        None => String::new(),
    }
}


/// Every entry of `a + b` is an entry of `a` or of `b`, and every entry of
/// either is one of `a + b`.
proof fn lemma_entries_of_concat(a: Seq<(Seq<char>, MetaView)>, b: Seq<(Seq<char>, MetaView)>)
    ensures
        forall|x: (Seq<char>, MetaView)| a.contains(x) ==> #[trigger] (a + b).contains(x),
        forall|x: (Seq<char>, MetaView)| b.contains(x) ==> #[trigger] (a + b).contains(x),
{
    assert forall|x: (Seq<char>, MetaView)| a.contains(x) implies #[trigger] (a + b).contains(x) by {
        let i = choose|i: int| 0 <= i < a.len() && a[i] == x;
        assert((a + b)[i] == x);
    }
    assert forall|x: (Seq<char>, MetaView)| b.contains(x) implies #[trigger] (a + b).contains(x) by {
        let j = choose|j: int| 0 <= j < b.len() && b[j] == x;
        assert((a + b)[a.len() + j] == x);
    }
}

/// Every entry under either artwork key carries `link` (and there is none
/// when `link` is `None`).
pub open spec fn art_keys_carry(m: Seq<(Seq<char>, MetaView)>, link: Option<Seq<char>>) -> bool {
    forall|j: int|
        0 <= j < m.len() && (#[trigger] m[j].0 == "mpris:artUrl"@ || m[j].0 == "xesam:artUrl"@)
            ==> (link matches Some(u) && m[j].1 == MetaView::Text(u))
}

proof fn lemma_art_keys_concat(
    a: Seq<(Seq<char>, MetaView)>,
    b: Seq<(Seq<char>, MetaView)>,
    link: Option<Seq<char>>,
)
    requires
        art_keys_carry(a, link),
        art_keys_carry(b, link),
    ensures
        art_keys_carry(a + b, link),
{
    assert forall|j: int|
        0 <= j < (a + b).len() && (#[trigger] (a + b)[j].0 == "mpris:artUrl"@ || (a + b)[j].0
            == "xesam:artUrl"@) implies (link matches Some(u) && (a + b)[j].1 == MetaView::Text(
        u,
    )) by {
        if j < a.len() {
            assert((a + b)[j] == a[j]);
        } else {
            assert((a + b)[j] == b[j - a.len()]);
        }
    }
}

proof fn lemma_other_keys_are_not_art(s: RecognizedSong, status: Seq<char>, link: Option<Seq<char>>)
    ensures
        art_keys_carry(head_entries(s, status), link),
        art_keys_carry(optional_entry("xesam:album"@, s.album), link),
        art_keys_carry(genre_entries(s), link),
        art_keys_carry(optional_entry("shazam:isrc"@, s.isrc), link),
        art_keys_carry(offset_entries(s), link),
        art_keys_carry(optional_entry("shazam:previewUrl"@, s.preview_audio_url), link),
        art_keys_carry(optional_entry("shazam:shareUrl"@, s.share_url), link),
        art_keys_carry(lyrics_entries(s), link),
{
    reveal_strlit("mpris:artUrl");
    reveal_strlit("xesam:artUrl");
    reveal_strlit("mpris:trackid");
    reveal_strlit("shazam:engineStatus");
    reveal_strlit("xesam:title");
    reveal_strlit("xesam:artist");
    reveal_strlit("xesam:album");
    reveal_strlit("xesam:genre");
    reveal_strlit("shazam:isrc");
    reveal_strlit("shazam:offset");
    reveal_strlit("shazam:previewUrl");
    reveal_strlit("shazam:shareUrl");
    reveal_strlit("shazam:lyrics");
    assert("xesam:artist"@[9] != "xesam:artUrl"@[9]);
    assert("mpris:trackid"@[6] != "mpris:artUrl"@[6]);
    assert("mpris:trackid"@[0] != "xesam:artUrl"@[0]);
    assert("shazam:engineStatus"@[0] != "mpris:artUrl"@[0]);
    assert("shazam:engineStatus"@[0] != "xesam:artUrl"@[0]);
    assert("mpris:trackid"@ != "mpris:artUrl"@ && "mpris:trackid"@ != "xesam:artUrl"@);
    assert("shazam:engineStatus"@ != "mpris:artUrl"@ && "shazam:engineStatus"@ != "xesam:artUrl"@);
    assert("xesam:title"@ != "mpris:artUrl"@ && "xesam:title"@ != "xesam:artUrl"@);
    assert("xesam:artist"@ != "mpris:artUrl"@ && "xesam:artist"@ != "xesam:artUrl"@);
    assert("xesam:album"@ != "mpris:artUrl"@ && "xesam:album"@ != "xesam:artUrl"@);
    assert("xesam:genre"@ != "mpris:artUrl"@ && "xesam:genre"@ != "xesam:artUrl"@);
    assert("shazam:isrc"@ != "mpris:artUrl"@ && "shazam:isrc"@ != "xesam:artUrl"@);
    assert("shazam:offset"@ != "mpris:artUrl"@ && "shazam:offset"@ != "xesam:artUrl"@);
    assert("shazam:previewUrl"@ != "mpris:artUrl"@ && "shazam:previewUrl"@ != "xesam:artUrl"@);
    assert("shazam:shareUrl"@ != "mpris:artUrl"@ && "shazam:shareUrl"@ != "xesam:artUrl"@);
    assert("shazam:lyrics"@ != "mpris:artUrl"@ && "shazam:lyrics"@ != "xesam:artUrl"@);
}

/// Law of published artwork: when the song has a high-quality cover link,
/// the `mpris:artUrl` and `xesam:artUrl` entries are published with exactly
/// that link; the plain cover link is used only when there is no
/// high-quality one; without either, neither key is published.
pub proof fn lemma_artwork_prefers_high_quality(s: RecognizedSong, status: Seq<char>)
    ensures
        ({
            let m = metadata_view(Some(s), status);
            let link: Option<Seq<char>> = match s.cover_art_hq_url {
                Some(u) => Some(u@),
                None => match s.cover_art_url {
                    Some(u) => Some(u@),
                    None => None,
                },
            };
            &&& forall|j: int|
                0 <= j < m.len() && (#[trigger] m[j].0 == "mpris:artUrl"@ || m[j].0
                    == "xesam:artUrl"@) ==> (link matches Some(u) && m[j].1 == MetaView::Text(u))
            &&& link matches Some(u) ==> m.contains(("mpris:artUrl"@, MetaView::Text(u))) && m.contains(
                ("xesam:artUrl"@, MetaView::Text(u)),
            )
        }),
{
    let m = metadata_view(Some(s), status);
    let link: Option<Seq<char>> = match s.cover_art_hq_url {
        Some(u) => Some(u@),
        None => match s.cover_art_url {
            Some(u) => Some(u@),
            None => None,
        },
    };
    let h = head_entries(s, status);
    let a = optional_entry("xesam:album"@, s.album);
    let g = genre_entries(s);
    let r = art_entries(s);
    let i = optional_entry("shazam:isrc"@, s.isrc);
    let o = offset_entries(s);
    let p = optional_entry("shazam:previewUrl"@, s.preview_audio_url);
    let sh = optional_entry("shazam:shareUrl"@, s.share_url);
    let l = lyrics_entries(s);
    assert(m == h + a + g + r + i + o + p + sh + l);
    lemma_other_keys_are_not_art(s, status, link);
    assert(art_keys_carry(r, link));
    lemma_art_keys_concat(h, a, link);
    lemma_art_keys_concat(h + a, g, link);
    lemma_art_keys_concat(h + a + g, r, link);
    lemma_art_keys_concat(h + a + g + r, i, link);
    lemma_art_keys_concat(h + a + g + r + i, o, link);
    lemma_art_keys_concat(h + a + g + r + i + o, p, link);
    lemma_art_keys_concat(h + a + g + r + i + o + p, sh, link);
    lemma_art_keys_concat(h + a + g + r + i + o + p + sh, l, link);
    if let Some(u) = link {
        assert(r[0] == ("mpris:artUrl"@, MetaView::Text(u)));
        assert(r[1] == ("xesam:artUrl"@, MetaView::Text(u)));
        lemma_entries_of_concat(h + a + g, r);
        lemma_entries_of_concat(h + a + g + r, i);
        lemma_entries_of_concat(h + a + g + r + i, o);
        lemma_entries_of_concat(h + a + g + r + i + o, p);
        lemma_entries_of_concat(h + a + g + r + i + o + p, sh);
        lemma_entries_of_concat(h + a + g + r + i + o + p + sh, l);
    }
}

/// Law of published metadata: every field that the current song has is
/// published under its key — title, artist, and, when present, album,
/// genre, ISRC, offset, preview link, share link and the lyrics (their lines
/// joined by newlines).
pub proof fn lemma_present_fields_are_published(s: RecognizedSong, status: Seq<char>)
    ensures
        ({
            let m = metadata_view(Some(s), status);
            &&& m.contains(("xesam:title"@, MetaView::Text(s.title@)))
            &&& m.contains(("xesam:artist"@, MetaView::Texts(seq![s.artist@])))
            &&& m.contains(("shazam:engineStatus"@, MetaView::Text(status)))
            &&& (s.album matches Some(x) ==> m.contains(("xesam:album"@, MetaView::Text(x@))))
            &&& (s.genre matches Some(x) ==> m.contains(("xesam:genre"@, MetaView::Texts(seq![x@]))))
            &&& (s.isrc matches Some(x) ==> m.contains(("shazam:isrc"@, MetaView::Text(x@))))
            &&& (s.offset_seconds matches Some(x) ==> m.contains(("shazam:offset"@, MetaView::Number(x))))
            &&& (s.preview_audio_url matches Some(x) ==> m.contains(
                ("shazam:previewUrl"@, MetaView::Text(x@)),
            ))
            &&& (s.share_url matches Some(x) ==> m.contains(("shazam:shareUrl"@, MetaView::Text(x@))))
            &&& (s.lyrics matches Some(v) ==> m.contains(
                ("shazam:lyrics"@, MetaView::Text(joined(v@.map_values(|x: String| x@), "\n"@))),
            ))
        }),
{
    let m = metadata_view(Some(s), status);
    let h = head_entries(s, status);
    let a = optional_entry("xesam:album"@, s.album);
    let g = genre_entries(s);
    let r = art_entries(s);
    let i = optional_entry("shazam:isrc"@, s.isrc);
    let o = offset_entries(s);
    let p = optional_entry("shazam:previewUrl"@, s.preview_audio_url);
    let sh = optional_entry("shazam:shareUrl"@, s.share_url);
    let l = lyrics_entries(s);
    assert(m == h + a + g + r + i + o + p + sh + l);
    assert(h[1] == ("shazam:engineStatus"@, MetaView::Text(status)));
    assert(h[2] == ("xesam:title"@, MetaView::Text(s.title@)));
    assert(h[3] == ("xesam:artist"@, MetaView::Texts(seq![s.artist@])));
    if a.len() > 0 {
        assert(a[0] == a[0]);
    }
    if g.len() > 0 {
        assert(g[0] == g[0]);
    }
    if i.len() > 0 {
        assert(i[0] == i[0]);
    }
    if o.len() > 0 {
        assert(o[0] == o[0]);
    }
    if p.len() > 0 {
        assert(p[0] == p[0]);
    }
    if sh.len() > 0 {
        assert(sh[0] == sh[0]);
    }
    if l.len() > 0 {
        assert(l[0] == l[0]);
    }
    lemma_entries_of_concat(h, a);
    lemma_entries_of_concat(h + a, g);
    lemma_entries_of_concat(h + a + g, r);
    lemma_entries_of_concat(h + a + g + r, i);
    lemma_entries_of_concat(h + a + g + r + i, o);
    lemma_entries_of_concat(h + a + g + r + i + o, p);
    lemma_entries_of_concat(h + a + g + r + i + o + p, sh);
    lemma_entries_of_concat(h + a + g + r + i + o + p + sh, l);
}

} // verus!
