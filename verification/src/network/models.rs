use vstd::prelude::*;
use crate::text::{
    concat, contains, ends_with, eq_ignore_ascii_case, equal_ignoring_ascii_case,
    has_suffix, is_substring, owned, str_eq,
};

verus! {

/// Bit pattern of an IEEE-754 double that the library carries unchanged
/// and never computes with.
#[derive(Debug, Clone, Copy, PartialEq, Eq, Structural)]
pub struct F64Bits {
    pub bits: u64,
}

/// The recognition service's reply.
#[derive(Debug, Clone)]
pub struct ShazamResponse {
    pub matches: Option<Vec<MatchItem>>,
    pub track: Option<TrackItem>,
    pub tagid: Option<String>,
}

/// One match of the recording against the catalogue.
#[derive(Debug, Clone)]
pub struct MatchItem {
    pub id: Option<String>,
    pub offset: Option<F64Bits>,
    pub frequencyskew: Option<F64Bits>,
    pub timeskew: Option<F64Bits>,
}

/// The matched track.
#[derive(Debug, Clone)]
pub struct TrackItem {
    pub key: Option<String>,
    pub title: Option<String>,
    pub subtitle: Option<String>,
    pub isrc: Option<String>,
    pub images: Option<TrackImages>,
    pub share: Option<TrackShare>,
    pub hub: Option<TrackHub>,
    pub sections: Option<Vec<TrackSection>>,
    pub genres: Option<TrackGenres>,
    pub url: Option<String>,
}

/// Artwork links of a track.
#[derive(Debug, Clone)]
pub struct TrackImages {
    pub background: Option<String>,
    pub coverart: Option<String>,
    pub coverarthq: Option<String>,
    pub joecolor: Option<String>,
}

/// Sharing links and texts of a track.
#[derive(Debug, Clone)]
pub struct TrackShare {
    pub subject: Option<String>,
    pub text: Option<String>,
    pub href: Option<String>,
    pub image: Option<String>,
    pub twitter: Option<String>,
    pub html: Option<String>,
    pub avatar: Option<String>,
    pub snapchat: Option<String>,
}

/// Playback hub of a track; `options` holds each option as JSON text.
#[derive(Debug, Clone)]
pub struct TrackHub {
    pub actions: Option<Vec<HubAction>>,
    pub options: Option<Vec<String>>,
}

/// One action of the playback hub.
#[derive(Debug, Clone)]
pub struct HubAction {
    pub name: Option<String>,
    pub action_type: Option<String>,
    pub id: Option<String>,
    pub uri: Option<String>,
}

/// One section of the track page.
#[derive(Debug, Clone)]
pub struct TrackSection {
    pub section_type: Option<String>,
    pub text: Option<Vec<String>>,
    pub metadata: Option<Vec<SectionMetadata>>,
}

/// One metadata line of a section.
#[derive(Debug, Clone)]
pub struct SectionMetadata {
    pub title: Option<String>,
    pub text: Option<String>,
}

/// Genres of a track.
#[derive(Debug, Clone)]
pub struct TrackGenres {
    pub primary: Option<String>,
}

/// Consolidated description of an identified song.
#[derive(Debug, Clone, PartialEq)]
pub struct RecognizedSong {
    pub title: String,
    pub artist: String,
    pub album: Option<String>,
    pub genre: Option<String>,
    pub isrc: Option<String>,
    pub shazam_key: Option<String>,
    pub cover_art_url: Option<String>,
    pub cover_art_hq_url: Option<String>,
    pub offset_seconds: Option<F64Bits>,
    pub preview_audio_url: Option<String>,
    pub share_url: Option<String>,
    pub lyrics: Option<Vec<String>>,
}

/// The text of an optional string.
pub open spec fn opt_text(o: Option<String>) -> Option<Seq<char>> {
    match o {
        Some(s) => Some(s@),
        None => None,
    }
}

/// The texts of an optional list of strings.
pub open spec fn opt_lines(o: Option<Vec<String>>) -> Option<Seq<Seq<char>>> {
    match o {
        Some(v) => Some(v@.map_values(|s: String| s@)),
        None => None,
    }
}

/// The optional string holds exactly `text`.
pub open spec fn is_text(o: Option<String>, text: Seq<char>) -> bool {
    o matches Some(s) && s@ == text
}

/// A metadata line titled "album", in any ASCII case.
pub open spec fn is_album_line(m: SectionMetadata) -> bool {
    m.title matches Some(t) && equal_ignoring_ascii_case(t@, "album"@)
}

/// Text of the last album line among `lines`, if there is such a line.
pub open spec fn last_album_line(lines: Seq<SectionMetadata>) -> Option<Option<Seq<char>>>
    decreases lines.len(),
{
    if lines.len() == 0 {
        None
    } else if is_album_line(lines.last()) {
        Some(opt_text(lines.last().text))
    } else {
        last_album_line(lines.drop_last())
    }
}

/// Album line that a section contributes: only sections of type "SONG" do.
pub open spec fn section_album(s: TrackSection) -> Option<Option<Seq<char>>> {
    if is_text(s.section_type, "SONG"@) {
        match s.metadata {
            Some(lines) => last_album_line(lines@),
            None => None,
        }
    } else {
        None
    }
}

/// The album: the text of the last album line of all "SONG" sections, in
/// order; none when no such line exists.
pub open spec fn album_of_sections(sections: Seq<TrackSection>) -> Option<Seq<char>>
    decreases sections.len(),
{
    if sections.len() == 0 {
        None
    } else {
        match section_album(sections.last()) {
            Some(found) => found,
            None => album_of_sections(sections.drop_last()),
        }
    }
}

/// The lyrics: the text of the last section of type "LYRICS"; none when
/// there is no such section.
pub open spec fn lyrics_of_sections(sections: Seq<TrackSection>) -> Option<Seq<Seq<char>>>
    decreases sections.len(),
{
    if sections.len() == 0 {
        None
    } else if is_text(sections.last().section_type, "LYRICS"@) {
        opt_lines(sections.last().text)
    } else {
        lyrics_of_sections(sections.drop_last())
    }
}

/// A hub action that links an audio preview: of type "uri", with a link that
/// ends in ".m4a" or mentions "itunes.apple.com".
pub open spec fn is_preview_action(a: HubAction) -> bool {
    &&& is_text(a.action_type, "uri"@)
    &&& a.uri matches Some(u) && (has_suffix(u@, ".m4a"@) || is_substring(u@, "itunes.apple.com"@))
}

/// Link of the first preview action.
pub open spec fn first_preview(actions: Seq<HubAction>) -> Option<Seq<char>>
    decreases actions.len(),
{
    if actions.len() == 0 {
        None
    } else if is_preview_action(actions[0]) {
        opt_text(actions[0].uri)
    } else {
        first_preview(actions.drop_first())
    }
}

/// The song that a reply with a track describes.
pub open spec fn song_matches_track(
    song: RecognizedSong,
    track: TrackItem,
    matches: Option<Vec<MatchItem>>,
) -> bool {
    &&& song.title@ == match track.title {
        Some(t) => t@,
        None => "Unknown Title"@,
    }
    &&& song.artist@ == match track.subtitle {
        Some(t) => t@,
        None => "Unknown Artist"@,
    }
    &&& opt_text(song.album) == match track.sections {
        Some(s) => album_of_sections(s@),
        None => None,
    }
    &&& opt_lines(song.lyrics) == match track.sections {
        Some(s) => lyrics_of_sections(s@),
        None => None,
    }
    &&& opt_text(song.genre) == match track.genres {
        Some(g) => opt_text(g.primary),
        None => None,
    }
    &&& opt_text(song.isrc) == opt_text(track.isrc)
    &&& opt_text(song.shazam_key) == opt_text(track.key)
    &&& opt_text(song.cover_art_url) == match track.images {
        Some(img) => opt_text(img.coverart),
        None => None,
    }
    &&& opt_text(song.cover_art_hq_url) == match track.images {
        Some(img) => if img.coverarthq is Some {
            opt_text(img.coverarthq)
        } else {
            opt_text(img.coverart)
        },
        None => None,
    }
    &&& song.offset_seconds == match matches {
        Some(m) => if m@.len() > 0 {
            m@[0].offset
        } else {
            None
        },
        None => None,
    }
    &&& opt_text(song.preview_audio_url) == match track.hub {
        Some(hub) => match hub.actions {
            Some(a) => first_preview(a@),
            None => None,
        },
        None => None,
    }
    &&& opt_text(song.share_url) == match track.share {
        Some(sh) => if sh.href is Some {
            opt_text(sh.href)
        } else {
            opt_text(track.url)
        },
        None => opt_text(track.url),
    }
}

fn copy_text(o: &Option<String>) -> (r: Option<String>)
    ensures
        opt_text(r) == opt_text(*o),
{
    match o {
        Some(s) => Some(s.clone()),
        None => None,
    }
}

fn copy_lines(o: &Option<Vec<String>>) -> (r: Option<Vec<String>>)
    ensures
        opt_lines(r) == opt_lines(*o),
{
    match o {
        Some(v) => {
            let mut out: Vec<String> = Vec::new();
            let mut i: usize = 0;
            while i < v.len()
                invariant
                    i <= v.len(),
                    out@.len() == i,
                    forall|j: int| 0 <= j < i ==> #[trigger] out@[j]@ == v@[j]@,
                decreases v.len() - i,
            {
                out.push(v[i].clone());
                i = i + 1;
            }
            assert(out@.map_values(|s: String| s@) =~= v@.map_values(|s: String| s@));
            Some(out)
        },
        None => None,
    }
}

fn text_is(o: &Option<String>, lit: &str) -> (r: bool)
    ensures
        r == is_text(*o, lit@),
{
    match o {
        Some(s) => str_eq(s.as_str(), lit),
        None => false,
    }
}

fn find_album(sections: &Vec<TrackSection>) -> (r: Option<String>)
    ensures
        opt_text(r) == album_of_sections(sections@),
{
    let mut album: Option<String> = None;
    let mut i: usize = 0;
    while i < sections.len()
        invariant
            i <= sections.len(),
            opt_text(album) == album_of_sections(sections@.take(i as int)),
        decreases sections.len() - i,
    {
        let section = &sections[i];
        assert(sections@.take(i + 1).drop_last() =~= sections@.take(i as int));
        if text_is(&section.section_type, "SONG") {
            match &section.metadata {
                Some(meta) => {
                    let ghost before = album;
                    let mut k: usize = 0;
                    while k < meta.len()
                        invariant
                            k <= meta.len(),
                            opt_text(album) == match last_album_line(meta@.take(k as int)) {
                                Some(found) => found,
                                None => opt_text(before),
                            },
                        decreases meta.len() - k,
                    {
                        let m = &meta[k];
                        assert(meta@.take(k + 1).drop_last() =~= meta@.take(k as int));
                        let is_album = match &m.title {
                            Some(t) => eq_ignore_ascii_case(t.as_str(), "album"),
                            None => false,
                        };
                        if is_album {
                            album = copy_text(&m.text);
                        }
                        k = k + 1;
                    }
                    assert(meta@.take(meta.len() as int) =~= meta@);
                },
                None => {},
            }
        }
        i = i + 1;
    }
    assert(sections@.take(sections.len() as int) =~= sections@);
    album
}

fn find_lyrics(sections: &Vec<TrackSection>) -> (r: Option<Vec<String>>)
    ensures
        opt_lines(r) == lyrics_of_sections(sections@),
{
    let mut lyrics: Option<Vec<String>> = None;
    let mut i: usize = 0;
    while i < sections.len()
        invariant
            i <= sections.len(),
            opt_lines(lyrics) == lyrics_of_sections(sections@.take(i as int)),
        decreases sections.len() - i,
    {
        let section = &sections[i];
        assert(sections@.take(i + 1).drop_last() =~= sections@.take(i as int));
        if !text_is(&section.section_type, "SONG") && text_is(&section.section_type, "LYRICS") {
            lyrics = copy_lines(&section.text);
        }
        proof {
            if is_text(section.section_type, "SONG"@) {
                reveal_strlit("SONG");
                reveal_strlit("LYRICS");
                assert("SONG"@.len() != "LYRICS"@.len());
                assert(!is_text(section.section_type, "LYRICS"@));
            }
        }
        i = i + 1;
    }
    assert(sections@.take(sections.len() as int) =~= sections@);
    lyrics
}

fn is_preview(a: &HubAction) -> (r: bool)
    ensures
        r == is_preview_action(*a),
{
    if !text_is(&a.action_type, "uri") {
        return false;
    }
    match &a.uri {
        Some(u) => ends_with(u.as_str(), ".m4a") || contains(u.as_str(), "itunes.apple.com"),
        None => false,
    }
}

fn find_preview(actions: &Vec<HubAction>) -> (r: Option<String>)
    ensures
        opt_text(r) == first_preview(actions@),
{
    let mut i: usize = 0;
    assert(actions@.skip(0) =~= actions@);
    while i < actions.len()
        invariant
            i <= actions.len(),
            first_preview(actions@) == first_preview(actions@.skip(i as int)),
        decreases actions.len() - i,
    {
        assert(actions@.skip(i as int)[0] == actions@[i as int]);
        assert(actions@.skip(i as int).drop_first() =~= actions@.skip(i + 1));
        if is_preview(&actions[i]) {
            return copy_text(&actions[i].uri);
        }
        i = i + 1;
    }
    None
}

impl RecognizedSong {
    /// The song that a reply describes; none when the reply names no track.
    pub fn from_shazam_response(resp: ShazamResponse) -> (r: Option<Self>)
        ensures
            r is None <==> resp.track is None,
            r matches Some(song) ==> song_matches_track(song, resp.track->0, resp.matches),
    {
        let track = match &resp.track {
            Some(t) => t,
            None => return None,
        };
        let title = match &track.title {
            Some(t) => t.clone(),
            None => owned("Unknown Title"),
        };
        let artist = match &track.subtitle {
            Some(t) => t.clone(),
            None => owned("Unknown Artist"),
        };
        let (album, lyrics) = match &track.sections {
            Some(sections) => (find_album(sections), find_lyrics(sections)),
            None => (None, None),
        };
        let genre = match &track.genres {
            Some(g) => copy_text(&g.primary),
            None => None,
        };
        let cover_art_url = match &track.images {
            Some(img) => copy_text(&img.coverart),
            None => None,
        };
        let cover_art_hq_url = match &track.images {
            Some(img) => match &img.coverarthq {
                Some(hq) => Some(hq.clone()),
                None => copy_text(&img.coverart),
            },
            None => None,
        };
        let offset_seconds = match &resp.matches {
            Some(m) => if m.len() > 0 {
                m[0].offset
            } else {
                None
            },
            None => None,
        };
        let preview_audio_url = match &track.hub {
            Some(hub) => match &hub.actions {
                Some(actions) => find_preview(actions),
                None => None,
            },
            None => None,
        };
        let share_url = match &track.share {
            Some(sh) => match &sh.href {
                Some(h) => Some(h.clone()),
                None => copy_text(&track.url),
            },
            None => copy_text(&track.url),
        };
        Some(
            RecognizedSong {
                title,
                artist,
                album,
                genre,
                isrc: copy_text(&track.isrc),
                shazam_key: copy_text(&track.key),
                cover_art_url,
                cover_art_hq_url,
                offset_seconds,
                preview_audio_url,
                share_url,
                lyrics,
            },
        )
    }

    /// Identifier of the song for change detection: "title - artist".
    pub fn display_id(&self) -> (id: String)
        ensures
            id@ == self.title@ + " - "@ + self.artist@,
    {
        let mut id = concat(self.title.as_str(), " - ");
        id.append(self.artist.as_str());
        id
    }
}

} // verus!
