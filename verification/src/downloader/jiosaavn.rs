use vstd::prelude::*;
use crate::text::{chars_of, concat, owned, replace_all, replaced, string_of};

verus! {

/// One search result of the JioSaavn catalogue.
#[derive(Debug, Clone)]
pub struct JioSaavnSong {
    pub id: Option<String>,
    pub song: Option<String>,
    pub primary_artists: Option<String>,
    pub singers: Option<String>,
    pub album: Option<String>,
    pub year: Option<String>,
    pub image: Option<String>,
    pub encrypted_media_url: Option<String>,
}

/// The catalogue query for a song: "title artist".
pub fn search_query(title: &str, artist: &str) -> (q: String)
    ensures
        q@ == title@ + " "@ + artist@,
{
    let mut q = concat(title, " ");
    q.append(artist);
    q
}

/// The best search result: the first one, if the reply lists any.
pub fn first_result(results: Option<Vec<JioSaavnSong>>) -> (r: Option<JioSaavnSong>)
    ensures
        match results {
            Some(v) => if v@.len() > 0 {
                r == Some(v@[0])
            } else {
                r is None
            },
            None => r is None,
        },
{
    match results {
        Some(mut v) => if v.len() > 0 {
            Some(v.remove(0))
        } else {
            None
        },
        None => None,
    }
}

/// First step of a download: the catalogue's match with its encrypted media
/// link, or the error that ends the download when there is no match or the
/// match has no media link.
pub fn encrypted_media_url_of(found: Option<JioSaavnSong>) -> (r: Result<(JioSaavnSong, String), String>)
    ensures
        match found {
            None => r matches Err(e) && e@ == "No match found on JioSaavn"@,
            Some(song) => match song.encrypted_media_url {
                Some(u) => r matches Ok((s, v)) && s == song && v@ == u@,
                None => r matches Err(e) && e@ == "No media URL in JioSaavn metadata"@,
            },
        },
{
    match found {
        None => Err(owned("No match found on JioSaavn")),
        Some(song) => {
            let url = match &song.encrypted_media_url {
                Some(u) => Some(owned(u.as_str())),
                None => None,
            };
            match url {
                Some(v) => Ok((song, v)),
                None => Err(owned("No media URL in JioSaavn metadata")),
            }
        },
    }
}

/// The streaming link from the token reply: the top-level `auth_url`, else
/// the one under `data`; without either, an error that quotes the HTTP
/// status and the reply.
pub fn stream_url_from_reply(
    auth_url: Option<String>,
    data_auth_url: Option<String>,
    status: &str,
    body: &str,
) -> (r: Result<String, String>)
    ensures
        match auth_url {
            Some(u) => r == Ok::<String, String>(u),
            None => match data_auth_url {
                Some(u) => r == Ok::<String, String>(u),
                None => r matches Err(e) && e@ == "HTTP "@ + status@ + " - Server returned: "@ + body@,
            },
        },
{
    match auth_url {
        Some(u) => Ok(u),
        None => match data_auth_url {
            Some(u) => Ok(u),
            None => {
                let mut e = concat("HTTP ", status);
                e.append(" - Server returned: ");
                e.append(body);
                Err(e)
            },
        },
    }
}

/// Characters that cannot stand in a file name on common systems.
pub open spec fn is_unsafe_file_char(c: char) -> bool {
    c == '/' || c == '\\' || c == ':' || c == '*' || c == '?' || c == '"' || c == '<' || c == '>'
        || c == '|'
}

/// `s` with every character that cannot stand in a file name replaced by `_`.
pub open spec fn safe_file_text(s: Seq<char>) -> Seq<char> {
    s.map_values(|c: char| if is_unsafe_file_char(c) {
        '_'
    } else {
        c
    })
}

/// Law of file-name cleaning: the cleaned text has the same length and none
/// of the characters that cannot stand in a file name; every other
/// character is kept.
pub proof fn lemma_safe_file_text_is_safe(s: Seq<char>)
    ensures
        safe_file_text(s).len() == s.len(),
        forall|i: int|
            0 <= i < s.len() ==> !is_unsafe_file_char(#[trigger] safe_file_text(s)[i]) && (
            !is_unsafe_file_char(s[i]) ==> safe_file_text(s)[i] == s[i]),
{
}

/// Makes `s` usable as part of a file name.
pub fn safe_file_component(s: &str) -> (r: String)
    ensures
        r@ == safe_file_text(s@),
{
    let chars = chars_of(s);
    let mut out: Vec<char> = Vec::new();
    let mut i: usize = 0;
    while i < chars.len()
        invariant
            i <= chars.len(),
            chars@ == s@,
            out@ == safe_file_text(chars@.take(i as int)),
        decreases chars.len() - i,
    {
        let c = chars[i];
        let d = if c == '/' || c == '\\' || c == ':' || c == '*' || c == '?' || c == '"' || c == '<'
            || c == '>' || c == '|' {
            '_'
        } else {
            c
        };
        out.push(d);
        assert(out@ =~= safe_file_text(chars@.take(i + 1)));
        i = i + 1;
    }
    assert(chars@.take(chars.len() as int) =~= chars@);
    string_of(out.as_slice())
}

/// The title to tag and name the file with: the catalogue's, else the one
/// asked for.
pub open spec fn clean_title_spec(song: JioSaavnSong, title: Seq<char>) -> Seq<char> {
    match song.song {
        Some(t) => t@,
        None => title,
    }
}

/// The artist to tag and name the file with: the catalogue's primary
/// artists, else its singers, else the one asked for.
pub open spec fn clean_artist_spec(song: JioSaavnSong, artist: Seq<char>) -> Seq<char> {
    match song.primary_artists {
        Some(a) => a@,
        None => match song.singers {
            Some(s) => s@,
            None => artist,
        },
    }
}

/// Title and artist of a downloaded song.
pub fn clean_names(song: &JioSaavnSong, title: &str, artist: &str) -> (r: (String, String))
    ensures
        r.0@ == clean_title_spec(*song, title@),
        r.1@ == clean_artist_spec(*song, artist@),
{
    let t = match &song.song {
        Some(t) => t.clone(),
        None => owned(title),
    };
    let a = match &song.primary_artists {
        Some(a) => a.clone(),
        None => match &song.singers {
            Some(s) => s.clone(),
            None => owned(artist),
        },
    };
    (t, a)
}

/// File name of a downloaded song: "title - artist.m4a" with both parts
/// made safe for file names.
pub fn download_file_name(clean_title: &str, clean_artist: &str) -> (name: String)
    ensures
        name@ == safe_file_text(clean_title@) + " - "@ + safe_file_text(clean_artist@) + ".m4a"@,
{
    let mut name = safe_file_component(clean_title);
    name.append(" - ");
    name.append(safe_file_component(clean_artist).as_str());
    name.append(".m4a");
    name
}

/// Link of the 500x500 artwork for the link of a 150x150 or 50x50 one.
pub fn hq_artwork_url(url: &str) -> (r: String)
    ensures
        r@ == replaced(
            replaced(url@, "150x150.jpg"@, "500x500.jpg"@),
            "50x50.jpg"@,
            "500x500.jpg"@,
        ),
{
    proof {
        reveal_strlit("150x150.jpg");
        reveal_strlit("50x50.jpg");
    }
    let first = replace_all(url, "150x150.jpg", "500x500.jpg");
    replace_all(first.as_str(), "50x50.jpg", "500x500.jpg")
}


/// Law of file-name cleaning: the cleaned text has the same length; each of
/// the nine characters `/ \ : * ? " < > |` becomes `_`, and every other
/// character (letters, digits, spaces, apostrophes, dots, non-ASCII text)
/// is kept as it is.
pub proof fn lemma_cleaning_replaces_exactly_forbidden_chars(s: Seq<char>)
    ensures
        safe_file_text(s).len() == s.len(),
        forall|i: int|
            0 <= i < s.len() ==> #[trigger] safe_file_text(s)[i] == if s[i] == '/' || s[i] == '\\'
                || s[i] == ':' || s[i] == '*' || s[i] == '?' || s[i] == '"' || s[i] == '<' || s[i]
                == '>' || s[i] == '|' {
                '_'
            } else {
                s[i]
            },
{
}

/// Law of download file names: the name is the cleaned title, ` - `, the
/// cleaned artist and `.m4a`, where cleaning keeps every character but the
/// nine forbidden ones, which become `_`.
pub proof fn lemma_file_name_keeps_allowed_chars(title: Seq<char>, artist: Seq<char>)
    ensures
        ({
            let name = safe_file_text(title) + " - "@ + safe_file_text(artist) + ".m4a"@;
            &&& name.len() == title.len() + artist.len() + 7
            &&& forall|i: int|
                0 <= i < title.len() ==> name[i] == if title[i] == '/' || title[i] == '\\' || title[i]
                    == ':' || title[i] == '*' || title[i] == '?' || title[i] == '"' || title[i] == '<'
                    || title[i] == '>' || title[i] == '|' {
                    '_'
                } else {
                    title[i]
                }
            &&& forall|i: int|
                0 <= i < artist.len() ==> name[title.len() + 3 + i] == if artist[i] == '/'
                    || artist[i] == '\\' || artist[i] == ':' || artist[i] == '*' || artist[i] == '?'
                    || artist[i] == '"' || artist[i] == '<' || artist[i] == '>' || artist[i] == '|' {
                    '_'
                } else {
                    artist[i]
                }
        }),
{
    reveal_strlit(" - ");
    reveal_strlit(".m4a");
    lemma_cleaning_replaces_exactly_forbidden_chars(title);
    lemma_cleaning_replaces_exactly_forbidden_chars(artist);
    let name = safe_file_text(title) + " - "@ + safe_file_text(artist) + ".m4a"@;
    assert forall|i: int| 0 <= i < title.len() implies name[i] == safe_file_text(title)[i] by {}
    assert forall|i: int| 0 <= i < artist.len() implies name[title.len() + 3 + i]
        == safe_file_text(artist)[i] by {}
}

} // verus!
