use vstd::prelude::*;
use crate::network::models::{F64Bits, RecognizedSong};
use crate::text::{
    all_ascii, all_white_space, ascii_lower_text, ascii_upper_text,
    lemma_lowercase_trim_ignores_case_and_padding, chars_of, concat, contains, is_substring, lowercase, owned,
    to_lowercase, trim, trimmed,
};

verus! {

/// Where the song history is kept: a human-readable text log and a log of
/// one JSON record per line.
pub struct HistoryStorage {
    pub txt_path: String,
    pub jsonl_path: String,
}

/// `rel` appended to the directory `base` the way `Path::join` appends a
/// relative path: with a `/` between them unless `base` is empty or already
/// ends with one.
pub open spec fn path_join(base: Seq<char>, rel: Seq<char>) -> Seq<char> {
    if base.len() == 0 || base.last() == '/' {
        base + rel
    } else {
        base + "/"@ + rel
    }
}

/// Joins a relative path to a directory.
pub fn join_path(base: &str, rel: &str) -> (r: String)
    ensures
        r@ == path_join(base@, rel@),
{
    let chars = chars_of(base);
    if chars.len() == 0 || chars[chars.len() - 1] == '/' {
        concat(base, rel)
    } else {
        let mut r = concat(base, "/");
        r.append(rel);
        r
    }
}

/// The data directory that holds the history: `$HOME/.local/share`, or
/// `/tmp` when `HOME` is unset.
pub open spec fn data_dir_spec(home: Option<Seq<char>>) -> Seq<char> {
    match home {
        Some(h) => path_join(h, ".local/share"@),
        None => "/tmp"@,
    }
}

/// Chooses the data directory from the value of `HOME` (none when it is
/// unset or not Unicode).
pub fn data_dir(home: Option<&str>) -> (dir: String)
    ensures
        dir@ == data_dir_spec(
            match home {
                Some(h) => Some(h@),
                None => None,
            },
        ),
{
    match home {
        Some(h) => join_path(h, ".local/share"),
        None => owned("/tmp"),
    }
}

/// One record of the JSON history log.
#[derive(Debug, Clone)]
pub struct HistoryRecord {
    pub timestamp: String,
    pub title: String,
    pub artist: String,
    pub album: String,
    pub genre: String,
    pub isrc: String,
    pub shazam_key: String,
    pub cover_art: String,
    pub offset: F64Bits,
    pub preview_url: String,
    pub youtube_url: String,
    pub share_url: String,
    pub lyrics: Vec<String>,
}

/// The text of an optional string, or the empty text.
pub open spec fn text_or_empty(o: Option<String>) -> Seq<char> {
    match o {
        Some(s) => s@,
        None => Seq::<char>::empty(),
    }
}

fn string_or_empty(o: &Option<String>) -> (r: String)
    ensures
        r@ == text_or_empty(*o),
{
    match o {
        Some(s) => s.clone(),
        None => String::new(),
    }
}

/// Fields that history search looks at; a field missing from a record, or
/// not a string, is empty.
#[derive(Debug, Clone)]
pub struct SearchFields {
    pub title: String,
    pub artist: String,
    pub album: String,
    pub genre: String,
}

/// A record matches a normalized query when the lower-case form of its
/// title, artist, album or genre contains the query.
pub open spec fn record_matches(f: SearchFields, query: Seq<char>) -> bool {
    ||| is_substring(lowercase(f.title@), query)
    ||| is_substring(lowercase(f.artist@), query)
    ||| is_substring(lowercase(f.album@), query)
    ||| is_substring(lowercase(f.genre@), query)
}

/// The key that a search query is matched by: the query trimmed and in
/// lower case (for ASCII text, the ASCII lower-case form).
pub open spec fn search_key(query: Seq<char>) -> Seq<char> {
    if all_ascii(trimmed(query)) {
        ascii_lower_text(trimmed(query))
    } else {
        lowercase(trimmed(query))
    }
}

/// Positions of the matching records, newest (last) first.
pub open spec fn matching_positions(records: Seq<SearchFields>, query: Seq<char>) -> Seq<int>
    decreases records.len(),
{
    if records.len() == 0 {
        seq![]
    } else {
        let rest = matching_positions(records.drop_last(), query);
        if record_matches(records.last(), query) {
            seq![records.len() - 1] + rest
        } else {
            rest
        }
    }
}

/// Law of history search: the positions found are exactly those of the
/// matching records, each once, newest first.
pub proof fn lemma_matching_positions_exact(records: Seq<SearchFields>, query: Seq<char>)
    ensures
        forall|k: int|
            0 <= k < matching_positions(records, query).len() ==> {
                let p = #[trigger] matching_positions(records, query)[k];
                0 <= p < records.len() && record_matches(records[p], query)
            },
        forall|k: int, l: int|
            0 <= k < l < matching_positions(records, query).len() ==> #[trigger] matching_positions(
                records,
                query,
            )[k] > #[trigger] matching_positions(records, query)[l],
        forall|p: int|
            0 <= p < records.len() && record_matches(records[p], query) ==> #[trigger] matching_positions(
                records,
                query,
            ).contains(p),
    decreases records.len(),
{
    if records.len() > 0 {
        let rest = records.drop_last();
        lemma_matching_positions_exact(rest, query);
        let m = matching_positions(records, query);
        let mr = matching_positions(rest, query);
        assert forall|p: int|
            0 <= p < records.len() && record_matches(records[p], query) implies m.contains(p) by {
            if p < records.len() - 1 {
                assert(rest[p] == records[p]);
                assert(mr.contains(p));
                let k = choose|k: int| 0 <= k < mr.len() && mr[k] == p;
                if record_matches(records.last(), query) {
                    assert(m[k + 1] == p);
                } else {
                    assert(m[k] == p);
                }
            } else {
                assert(m[0] == p);
            }
        }
        assert forall|k: int| 0 <= k < m.len() implies {
            let p = #[trigger] m[k];
            0 <= p < records.len() && record_matches(records[p], query)
        } by {
            if record_matches(records.last(), query) && k > 0 {
                assert(m[k] == mr[k - 1]);
                assert(rest[mr[k - 1]] == records[mr[k - 1]]);
            } else if !record_matches(records.last(), query) {
                assert(m[k] == mr[k]);
                assert(rest[mr[k]] == records[mr[k]]);
            }
        }
        assert forall|k: int, l: int| 0 <= k < l < m.len() implies #[trigger] m[k] > #[trigger] m[l] by {
            if record_matches(records.last(), query) {
                if k > 0 {
                    assert(m[k] == mr[k - 1] && m[l] == mr[l - 1]);
                } else {
                    assert(m[l] == mr[l - 1]);
                    assert(mr[l - 1] < rest.len());
                }
            } else {
                assert(m[k] == mr[k] && m[l] == mr[l]);
            }
        }
    }
}

/// The first `n` elements of `s`, or all of `s` when it is shorter.
pub open spec fn keep_first<T>(s: Seq<T>, n: nat) -> Seq<T> {
    if s.len() <= n {
        s
    } else {
        s.take(n as int)
    }
}

/// The lines, newest (last) first.
pub open spec fn newest_first<T>(lines: Seq<T>) -> Seq<T> {
    lines.reverse()
}

/// Lines that hold more than white space.
pub open spec fn non_blank(lines: Seq<String>) -> Seq<String> {
    lines.filter(|l: String| trimmed(l@).len() > 0)
}

impl HistoryStorage {
    /// The history files in the data directory `data_dir`.
    pub fn in_dir(data_dir: &str) -> (s: Self)
        ensures
            s.txt_path@ == path_join(data_dir@, "shazam_history.txt"@),
            s.jsonl_path@ == path_join(data_dir@, "shazam_history.jsonl"@),
    {
        HistoryStorage {
            txt_path: join_path(data_dir, "shazam_history.txt"),
            jsonl_path: join_path(data_dir, "shazam_history.jsonl"),
        }
    }

    /// The line of the text log for `song` recognized at `now`:
    /// "[now] artist - title".
    pub fn text_log_line(now: &str, song: &RecognizedSong) -> (line: String)
        ensures
            line@ == "["@ + now@ + "] "@ + song.artist@ + " - "@ + song.title@,
    {
        let mut line = concat("[", now);
        line.append("] ");
        line.append(song.artist.as_str());
        line.append(" - ");
        line.append(song.title.as_str());
        line
    }

    /// The JSON log record of `song` recognized at `now`: absent texts are
    /// empty, the cover art is the high-quality one or else the plain one,
    /// an absent offset is zero and absent lyrics are no lines.
    pub fn log_record(now: &str, song: &RecognizedSong) -> (r: HistoryRecord)
        ensures
            r.timestamp@ == now@,
            r.title@ == song.title@,
            r.artist@ == song.artist@,
            r.album@ == text_or_empty(song.album),
            r.genre@ == text_or_empty(song.genre),
            r.isrc@ == text_or_empty(song.isrc),
            r.shazam_key@ == text_or_empty(song.shazam_key),
            r.cover_art@ == if song.cover_art_hq_url is Some {
                text_or_empty(song.cover_art_hq_url)
            } else {
                text_or_empty(song.cover_art_url)
            },
            r.offset == match song.offset_seconds {
                Some(o) => o,
                None => F64Bits { bits: 0 },
            },
            r.preview_url@ == text_or_empty(song.preview_audio_url),
            r.youtube_url@ == Seq::<char>::empty(),
            r.share_url@ == text_or_empty(song.share_url),
            r.lyrics@.map_values(|l: String| l@) == match song.lyrics {
                Some(v) => v@.map_values(|l: String| l@),
                None => Seq::<Seq<char>>::empty(),
            },
    {
        let cover_art = match &song.cover_art_hq_url {
            Some(hq) => hq.clone(),
            None => string_or_empty(&song.cover_art_url),
        };
        let offset = match song.offset_seconds {
            Some(o) => o,
            None => F64Bits { bits: 0 },
        };
        let mut lyrics: Vec<String> = Vec::new();
        match &song.lyrics {
            Some(v) => {
                let mut i: usize = 0;
                while i < v.len()
                    invariant
                        i <= v.len(),
                        lyrics@.len() == i,
                        forall|j: int| 0 <= j < i ==> #[trigger] lyrics@[j]@ == v@[j]@,
                    decreases v.len() - i,
                {
                    lyrics.push(v[i].clone());
                    i = i + 1;
                }
                assert(lyrics@.map_values(|l: String| l@) =~= v@.map_values(|l: String| l@));
            },
            None => {
                assert(lyrics@.map_values(|l: String| l@) =~= Seq::<Seq<char>>::empty());
            },
        }
        HistoryRecord {
            timestamp: owned(now),
            title: song.title.clone(),
            artist: song.artist.clone(),
            album: string_or_empty(&song.album),
            genre: string_or_empty(&song.genre),
            isrc: string_or_empty(&song.isrc),
            shazam_key: string_or_empty(&song.shazam_key),
            cover_art,
            offset,
            preview_url: string_or_empty(&song.preview_audio_url),
            youtube_url: String::new(),
            share_url: string_or_empty(&song.share_url),
            lyrics,
        }
    }

    /// The search query in normal form: without surrounding white space,
    /// in lower case. An empty normal form lists the most recent records.
    pub fn normalized_query(query: &str) -> (q: String)
        ensures
            q@ == lowercase(trimmed(query@)),
            q@ == search_key(query@),
    {
        to_lowercase(trim(query))
    }

    /// The `limit` most recent lines of the log, newest first.
    pub fn newest_lines(lines: Vec<String>, limit: usize) -> (r: Vec<String>)
        ensures
            r@ == keep_first(newest_first(lines@), limit as nat),
    {
        let mut out: Vec<String> = Vec::new();
        let n = lines.len();
        let mut lines = lines;
        let ghost all = lines@;
        while out.len() < limit && lines.len() > 0
            invariant
                out@.len() + lines@.len() == n,
                n == all.len(),
                lines@ == all.take(lines@.len() as int),
                out@ == newest_first(all).take(out@.len() as int),
                out@.len() <= limit,
            decreases lines.len(),
        {
            let ghost before = lines@;
            let l = lines.pop().unwrap();
            assert(newest_first(all)[out@.len() as int] == l);
            out.push(l);
            assert(out@ =~= newest_first(all).take(out@.len() as int));
            assert(lines@ =~= all.take(lines@.len() as int));
        }
        assert(out@ =~= keep_first(newest_first(all), limit as nat));
        out
    }

    /// The record with each field in lower case.
    pub fn lowercased(fields: &SearchFields) -> (r: SearchFields)
        ensures
            r.title@ == lowercase(fields.title@),
            r.artist@ == lowercase(fields.artist@),
            r.album@ == lowercase(fields.album@),
            r.genre@ == lowercase(fields.genre@),
    {
        SearchFields {
            title: to_lowercase(fields.title.as_str()),
            artist: to_lowercase(fields.artist.as_str()),
            album: to_lowercase(fields.album.as_str()),
            genre: to_lowercase(fields.genre.as_str()),
        }
    }

    /// Whether a record whose fields are already in lower case matches the
    /// normalized query: one of its fields contains the query.
    pub fn matches_lowered(lowered: &SearchFields, query: &str) -> (r: bool)
        ensures
            r == (is_substring(lowered.title@, query@) || is_substring(lowered.artist@, query@)
                || is_substring(lowered.album@, query@) || is_substring(lowered.genre@, query@)),
    {
        contains(lowered.title.as_str(), query) || contains(lowered.artist.as_str(), query)
            || contains(lowered.album.as_str(), query) || contains(lowered.genre.as_str(), query)
    }

    /// Whether a record matches the normalized query `query`.
    pub fn matches(fields: &SearchFields, query: &str) -> (r: bool)
        ensures
            r == record_matches(*fields, query@),
    {
        Self::matches_lowered(&Self::lowercased(fields), query)
    }

    /// Positions (in log order) of at most `cap` records that match the
    /// normalized query, newest first. The empty query matches every record.
    pub fn matching_newest(records: &Vec<SearchFields>, query: &str, cap: usize) -> (r: Vec<usize>)
        ensures
            r@.map_values(|i: usize| i as int) == keep_first(
                matching_positions(records@, query@),
                cap as nat,
            ),
    {
        let mut out: Vec<usize> = Vec::new();
        let mut i: usize = records.len();
        let ghost all = matching_positions(records@, query@);
        assert(records@.take(i as int) =~= records@);
        assert(out@.map_values(|k: usize| k as int) =~= Seq::<int>::empty());
        assert(all =~= out@.map_values(|k: usize| k as int) + matching_positions(
            records@.take(i as int),
            query@,
        ));
        while i > 0 && out.len() < cap
            invariant
                i <= records.len(),
                all == matching_positions(records@, query@),
                out@.len() <= cap,
                all == out@.map_values(|k: usize| k as int) + matching_positions(
                    records@.take(i as int),
                    query@,
                ),
            decreases i,
        {
            assert(records@.take(i as int).drop_last() =~= records@.take(i - 1));
            assert(records@.take(i as int).last() == records@[i - 1]);
            let ghost before = out@.map_values(|k: usize| k as int);
            if Self::matches(&records[i - 1], query) {
                out.push(i - 1);
                assert(out@.map_values(|k: usize| k as int) =~= before.push(i - 1));
            }
            i = i - 1;
        }
        proof {
            let taken = out@.map_values(|k: usize| k as int);
            if i == 0 {
                assert(records@.take(0) =~= Seq::<SearchFields>::empty());
            }
            assert(taken =~= keep_first(all, cap as nat));
        }
        out
    }

    /// Lines of the JSON log that hold more than white space, at most
    /// `limit` of them, newest first.
    pub fn recent_nonblank(lines: Vec<String>, limit: u32) -> (r: Vec<String>)
        ensures
            r@ == keep_first(newest_first(non_blank(lines@)), limit as nat),
    {
        let mut kept: Vec<String> = Vec::new();
        let mut i: usize = 0;
        let ghost all = lines@;
        let mut lines = lines;
        while i < lines.len()
            invariant
                lines@ == all,
                i <= lines@.len(),
                kept@ == non_blank(all.take(i as int)),
            decreases lines.len() - i,
        {
            let l = lines[i].clone();
            assert(all.take(i + 1).drop_last() =~= all.take(i as int));
            reveal_with_fuel(Seq::<String>::filter, 1);
            if !trim(l.as_str()).is_empty() {
                kept.push(l);
            }
            i = i + 1;
        }
        assert(all.take(all.len() as int) =~= all);
        Self::newest_lines(kept, limit as usize)
    }
}


/// Law of the history log: right after a line is appended, a listing of the
/// `limit` newest lines (`limit` at least one) starts with that line, and
/// the rest of it is the listing of the `limit - 1` newest lines before.
pub proof fn lemma_newest_after_append(lines: Seq<String>, line: String, limit: nat)
    requires
        limit >= 1,
    ensures
        keep_first(newest_first(lines.push(line)), limit).len() >= 1,
        keep_first(newest_first(lines.push(line)), limit)[0] == line,
        keep_first(newest_first(lines.push(line)), limit).drop_first() == keep_first(
            newest_first(lines),
            (limit - 1) as nat,
        ),
{
    let all = lines.push(line);
    assert(newest_first(all) =~= seq![line] + newest_first(lines));
    let listed = keep_first(newest_first(all), limit);
    if newest_first(all).len() <= limit {
        assert(listed.drop_first() =~= newest_first(lines));
    } else {
        assert(listed.drop_first() =~= newest_first(lines).take(limit - 1));
    }
}


/// Law of history search: for an ASCII query, upper-casing it and adding
/// white space around it gives the same search key, and so the same
/// matches, newest first, up to any cap.
pub proof fn lemma_search_ignores_case_and_padding(
    records: Seq<SearchFields>,
    q: Seq<char>,
    pre: Seq<char>,
    post: Seq<char>,
    cap: nat,
)
    requires
        all_ascii(q),
        all_white_space(pre),
        all_white_space(post),
    ensures
        search_key(pre + ascii_upper_text(q) + post) == search_key(q),
        keep_first(matching_positions(records, search_key(pre + ascii_upper_text(q) + post)), cap)
            == keep_first(matching_positions(records, search_key(q)), cap),
{
    lemma_lowercase_trim_ignores_case_and_padding(q, pre, post);
}


/// Law of record matching: a query found in the lower-case form of any one
/// of title, artist, album and genre matches, and a query found in none of
/// them does not; in particular the case of every field is ignored, so two
/// records whose fields have the same lower-case forms match the same
/// queries.
pub proof fn lemma_match_by_any_lowercased_field(f: SearchFields, g: SearchFields, q: Seq<char>)
    ensures
        is_substring(lowercase(f.title@), q) ==> record_matches(f, q),
        is_substring(lowercase(f.artist@), q) ==> record_matches(f, q),
        is_substring(lowercase(f.album@), q) ==> record_matches(f, q),
        is_substring(lowercase(f.genre@), q) ==> record_matches(f, q),
        !is_substring(lowercase(f.title@), q) && !is_substring(lowercase(f.artist@), q)
            && !is_substring(lowercase(f.album@), q) && !is_substring(lowercase(f.genre@), q)
            ==> !record_matches(f, q),
        lowercase(f.title@) == lowercase(g.title@) && lowercase(f.artist@) == lowercase(g.artist@)
            && lowercase(f.album@) == lowercase(g.album@) && lowercase(f.genre@) == lowercase(
            g.genre@,
        ) ==> record_matches(f, q) == record_matches(g, q),
{
}

/// Law of history search: the matching positions are exactly the records
/// for which the query occurs in the lower-case form of one of their fields.
pub proof fn lemma_search_finds_lowercased_fields(records: Seq<SearchFields>, q: Seq<char>, p: int)
    requires
        0 <= p < records.len(),
    ensures
        matching_positions(records, q).contains(p) == (is_substring(lowercase(records[p].title@), q)
            || is_substring(lowercase(records[p].artist@), q) || is_substring(
            lowercase(records[p].album@),
            q,
        ) || is_substring(lowercase(records[p].genre@), q)),
{
    lemma_matching_positions_exact(records, q);
    let m = matching_positions(records, q);
    if m.contains(p) {
        let k = choose|k: int| 0 <= k < m.len() && m[k] == p;
        assert(record_matches(records[m[k]], q));
    }
}

} // verus!
