use vstd::prelude::*;
use crate::audio::capture::{AudioSourceMode, SAMPLE_RATE};
use crate::network::models::RecognizedSong;
use crate::text::{
    chars_of, concat, is_white_space, lowercase, owned, push_char, str_eq, string_of, to_lowercase,
    trim, trim_end_chars, trim_start_chars, trimmed,
};

verus! {

/// The text that stands for `c` in HTML: the five characters with a meaning
/// in markup become entities, every other character stands for itself.
pub open spec fn html_entity(c: char) -> Seq<char> {
    if c == '&' {
        "&amp;"@
    } else if c == '<' {
        "&lt;"@
    } else if c == '>' {
        "&gt;"@
    } else if c == '"' {
        "&quot;"@
    } else if c == '\'' {
        "&#39;"@
    } else {
        seq![c]
    }
}

/// `s` with each character replaced by its HTML text.
pub open spec fn html_escaped(s: Seq<char>) -> Seq<char>
    decreases s.len(),
{
    if s.len() == 0 {
        seq![]
    } else {
        html_escaped(s.drop_last()) + html_entity(s.last())
    }
}

/// Escapes `&`, `<`, `>`, `"` and `'` for use in Pango markup.
pub fn html_escape(s: &str) -> (r: String)
    ensures
        r@ == html_escaped(s@),
{
    let chars = chars_of(s);
    let mut out = String::new();
    let mut i: usize = 0;
    while i < chars.len()
        invariant
            i <= chars.len(),
            chars@ == s@,
            out@ == html_escaped(chars@.take(i as int)),
        decreases chars.len() - i,
    {
        let c = chars[i];
        assert(chars@.take(i + 1).drop_last() =~= chars@.take(i as int));
        if c == '&' {
            out.append("&amp;");
        } else if c == '<' {
            out.append("&lt;");
        } else if c == '>' {
            out.append("&gt;");
        } else if c == '"' {
            out.append("&quot;");
        } else if c == '\'' {
            out.append("&#39;");
        } else {
            push_char(&mut out, c);
        }
        i = i + 1;
    }
    assert(chars@.take(chars.len() as int) =~= chars@);
    out
}

/// Law of HTML escaping: the escaped text holds none of `<`, `>`, `"` and
/// `'`, so it can neither open nor close markup nor end an attribute value.
pub proof fn lemma_escaped_text_has_no_markup(s: Seq<char>)
    ensures
        forall|i: int|
            0 <= i < html_escaped(s).len() ==> {
                let c = #[trigger] html_escaped(s)[i];
                c != '<' && c != '>' && c != '"' && c != '\''
            },
    decreases s.len(),
{
    if s.len() > 0 {
        lemma_escaped_text_has_no_markup(s.drop_last());
        reveal_strlit("&amp;");
        reveal_strlit("&lt;");
        reveal_strlit("&gt;");
        reveal_strlit("&quot;");
        reveal_strlit("&#39;");
        let prefix = html_escaped(s.drop_last());
        let e = html_entity(s.last());
        assert forall|i: int| 0 <= i < html_escaped(s).len() implies {
            let c = #[trigger] html_escaped(s)[i];
            c != '<' && c != '>' && c != '"' && c != '\''
        } by {
            if i >= prefix.len() {
                assert(html_escaped(s)[i] == e[i - prefix.len()]);
            } else {
                assert(html_escaped(s)[i] == prefix[i]);
            }
        }
    }
}

/// `t` begins with `p`.
pub open spec fn starts_with_text(t: Seq<char>, p: Seq<char>) -> bool {
    p.len() <= t.len() && t.subrange(0, p.len() as int) == p
}

/// Markup text with the five entities that `html_escape` writes decoded,
/// in one pass from the left.
pub open spec fn html_unescaped(t: Seq<char>) -> Seq<char>
    decreases t.len(),
{
    proof {
        reveal_strlit("&amp;");
        reveal_strlit("&lt;");
        reveal_strlit("&gt;");
        reveal_strlit("&quot;");
        reveal_strlit("&#39;");
    }
    if t.len() == 0 {
        seq![]
    } else if starts_with_text(t, "&amp;"@) {
        seq!['&'] + html_unescaped(t.skip(5))
    } else if starts_with_text(t, "&lt;"@) {
        seq!['<'] + html_unescaped(t.skip(4))
    } else if starts_with_text(t, "&gt;"@) {
        seq!['>'] + html_unescaped(t.skip(4))
    } else if starts_with_text(t, "&quot;"@) {
        seq!['"'] + html_unescaped(t.skip(6))
    } else if starts_with_text(t, "&#39;"@) {
        seq!['\''] + html_unescaped(t.skip(5))
    } else {
        seq![t[0]] + html_unescaped(t.drop_first())
    }
}

proof fn lemma_escaped_front(s: Seq<char>)
    requires
        s.len() > 0,
    ensures
        html_escaped(s) == html_entity(s[0]) + html_escaped(s.drop_first()),
    decreases s.len(),
{
    if s.len() == 1 {
        assert(s.drop_last() =~= Seq::<char>::empty());
        assert(s.drop_first() =~= Seq::<char>::empty());
        assert(html_escaped(s) =~= html_entity(s[0]) + html_escaped(s.drop_first()));
    } else {
        lemma_escaped_front(s.drop_last());
        assert(s.drop_last().drop_first() =~= s.drop_first().drop_last());
        assert(s.drop_first().last() == s.last());
        assert(s.drop_last()[0] == s[0]);
        assert(html_escaped(s) =~= html_entity(s[0]) + html_escaped(s.drop_first()));
    }
}

proof fn lemma_unescape_entity(c: char, rest: Seq<char>)
    ensures
        html_unescaped(html_entity(c) + rest) == seq![c] + html_unescaped(rest),
{
    reveal_strlit("&amp;");
    reveal_strlit("&lt;");
    reveal_strlit("&gt;");
    reveal_strlit("&quot;");
    reveal_strlit("&#39;");
    let t = html_entity(c) + rest;
    let e = html_entity(c);
    if c == '&' {
        assert(t.subrange(0, 5) =~= "&amp;"@);
        assert(t.skip(5) =~= rest);
    } else if c == '<' {
        assert(t[1] == 'l');
        assert(!starts_with_text(t, "&amp;"@)) by {
            if starts_with_text(t, "&amp;"@) {
                assert(t.subrange(0, 5)[1] == 'a');
            }
        }
        assert(t.subrange(0, 4) =~= "&lt;"@);
        assert(t.skip(4) =~= rest);
    } else if c == '>' {
        assert(t[1] == 'g');
        assert(!starts_with_text(t, "&amp;"@)) by {
            if starts_with_text(t, "&amp;"@) {
                assert(t.subrange(0, 5)[1] == 'a');
            }
        }
        assert(!starts_with_text(t, "&lt;"@)) by {
            if starts_with_text(t, "&lt;"@) {
                assert(t.subrange(0, 4)[1] == 'l');
            }
        }
        assert(t.subrange(0, 4) =~= "&gt;"@);
        assert(t.skip(4) =~= rest);
    } else if c == '"' {
        assert(t[1] == 'q');
        assert(!starts_with_text(t, "&amp;"@)) by {
            if starts_with_text(t, "&amp;"@) {
                assert(t.subrange(0, 5)[1] == 'a');
            }
        }
        assert(!starts_with_text(t, "&lt;"@)) by {
            if starts_with_text(t, "&lt;"@) {
                assert(t.subrange(0, 4)[1] == 'l');
            }
        }
        assert(!starts_with_text(t, "&gt;"@)) by {
            if starts_with_text(t, "&gt;"@) {
                assert(t.subrange(0, 4)[1] == 'g');
            }
        }
        assert(t.subrange(0, 6) =~= "&quot;"@);
        assert(t.skip(6) =~= rest);
    } else if c == '\'' {
        assert(t[1] == '#');
        assert(!starts_with_text(t, "&amp;"@)) by {
            if starts_with_text(t, "&amp;"@) {
                assert(t.subrange(0, 5)[1] == 'a');
            }
        }
        assert(!starts_with_text(t, "&lt;"@)) by {
            if starts_with_text(t, "&lt;"@) {
                assert(t.subrange(0, 4)[1] == 'l');
            }
        }
        assert(!starts_with_text(t, "&gt;"@)) by {
            if starts_with_text(t, "&gt;"@) {
                assert(t.subrange(0, 4)[1] == 'g');
            }
        }
        assert(!starts_with_text(t, "&quot;"@)) by {
            if starts_with_text(t, "&quot;"@) {
                assert(t.subrange(0, 6)[1] == 'q');
            }
        }
        assert(t.subrange(0, 5) =~= "&#39;"@);
        assert(t.skip(5) =~= rest);
    } else {
        assert(t[0] == c);
        assert(!starts_with_text(t, "&amp;"@)) by {
            if starts_with_text(t, "&amp;"@) {
                assert(t.subrange(0, 5)[0] == '&');
            }
        }
        assert(!starts_with_text(t, "&lt;"@)) by {
            if starts_with_text(t, "&lt;"@) {
                assert(t.subrange(0, 4)[0] == '&');
            }
        }
        assert(!starts_with_text(t, "&gt;"@)) by {
            if starts_with_text(t, "&gt;"@) {
                assert(t.subrange(0, 4)[0] == '&');
            }
        }
        assert(!starts_with_text(t, "&quot;"@)) by {
            if starts_with_text(t, "&quot;"@) {
                assert(t.subrange(0, 6)[0] == '&');
            }
        }
        assert(!starts_with_text(t, "&#39;"@)) by {
            if starts_with_text(t, "&#39;"@) {
                assert(t.subrange(0, 5)[0] == '&');
            }
        }
        assert(t.drop_first() =~= rest);
    }
}

/// Law of HTML escaping: decoding the five entities in one pass from the
/// left gives back the text that was escaped.
pub proof fn lemma_unescape_inverts_escape(s: Seq<char>)
    ensures
        html_unescaped(html_escaped(s)) == s,
    decreases s.len(),
{
    if s.len() == 0 {
        assert(html_escaped(s) =~= Seq::<char>::empty());
    } else {
        lemma_escaped_front(s);
        lemma_unescape_entity(s[0], html_escaped(s.drop_first()));
        lemma_unescape_inverts_escape(s.drop_first());
        assert(seq![s[0]] + s.drop_first() =~= s);
    }
}

/// The characters of `s` before its first `stop`, or all of `s`.
pub open spec fn before_char(s: Seq<char>, stop: char) -> Seq<char>
    decreases s.len(),
{
    if s.len() == 0 || s[0] == stop {
        seq![]
    } else {
        seq![s[0]] + before_char(s.drop_first(), stop)
    }
}

fn prefix_before(s: &str, stop: char) -> (r: String)
    ensures
        r@ == before_char(s@, stop),
{
    let chars = chars_of(s);
    let mut out = String::new();
    let mut i: usize = 0;
    assert(chars@.skip(0) =~= chars@);
    while i < chars.len() && chars[i] != stop
        invariant
            i <= chars.len(),
            chars@ == s@,
            before_char(s@, stop) == out@ + before_char(chars@.skip(i as int), stop),
        decreases chars.len() - i,
    {
        let ghost rest = chars@.skip(i as int);
        assert(rest.drop_first() =~= chars@.skip(i + 1));
        push_char(&mut out, chars[i]);
        assert(out@ + before_char(chars@.skip(i + 1), stop) =~= (out@.drop_last() + (seq![
            chars@[i as int],
        ] + before_char(rest.drop_first(), stop))));
        i = i + 1;
    }
    out
}

/// Panel text of a recognized song: the music glyph and the title up to any
/// parenthesis, trimmed.
pub open spec fn found_text(title: Seq<char>) -> Seq<char> {
    "\u{f04c5} "@ + trimmed(before_char(title, '('))
}

/// Panel tooltip of a recognized song: the escaped title in bold, the
/// escaped artist, and album and genre lines when they are known.
pub open spec fn found_tooltip(song: RecognizedSong) -> Seq<char> {
    "<span size='13000' weight='bold'>"@ + html_escaped(song.title@)
        + "</span>\n<span size='11000' color='#cccccc'><i>by</i> "@ + html_escaped(song.artist@)
        + "</span>"@ + match song.album {
        Some(a) => "\n<b>Album:</b> "@ + html_escaped(a@),
        None => Seq::<char>::empty(),
    } + match song.genre {
        Some(g) => "\n<b>Genre:</b> "@ + html_escaped(g@),
        None => Seq::<char>::empty(),
    }
}

/// Text and tooltip that the status panel shows for a recognized song.
pub fn found_display(song: &RecognizedSong) -> (r: (String, String))
    ensures
        r.0@ == found_text(song.title@),
        r.1@ == found_tooltip(*song),
{
    let head = prefix_before(song.title.as_str(), '(');
    let text = concat("\u{f04c5} ", trim(head.as_str()));
    let mut tooltip = owned("<span size='13000' weight='bold'>");
    tooltip.append(html_escape(song.title.as_str()).as_str());
    tooltip.append("</span>\n<span size='11000' color='#cccccc'><i>by</i> ");
    tooltip.append(html_escape(song.artist.as_str()).as_str());
    tooltip.append("</span>");
    let ghost base = tooltip@;
    match &song.album {
        Some(album) => {
            tooltip.append("\n<b>Album:</b> ");
            tooltip.append(html_escape(album.as_str()).as_str());
        },
        None => {},
    }
    let ghost with_album = tooltip@;
    match &song.genre {
        Some(genre) => {
            tooltip.append("\n<b>Genre:</b> ");
            tooltip.append(html_escape(genre.as_str()).as_str());
        },
        None => {},
    }
    assert(tooltip@ =~= found_tooltip(*song));
    (text, tooltip)
}


/// Position of the first occurrence of the non-empty `needle` in `hay`
/// at or after `from`, if any.
pub open spec fn first_occurrence(hay: Seq<char>, needle: Seq<char>, from: int) -> Option<int>
    decreases hay.len() - from,
{
    if from < 0 || needle.len() == 0 || from + needle.len() > hay.len() {
        None
    } else if hay.subrange(from, from + needle.len()) == needle {
        Some(from)
    } else {
        first_occurrence(hay, needle, from + 1)
    }
}

/// Title and artist of the current-song file "title - artist": the text
/// before and after the first " - ", each trimmed; none without a " - ".
pub open spec fn current_song_parts(text: Seq<char>) -> Option<(Seq<char>, Seq<char>)> {
    match first_occurrence(text, " - "@, 0) {
        Some(i) => Some((trimmed(text.subrange(0, i)), trimmed(text.subrange(i + 3, text.len() as int)))),
        None => None,
    }
}

/// Splits the content of the current-song file into title and artist.
pub fn split_current_song(text: &str) -> (r: Option<(String, String)>)
    ensures
        match current_song_parts(text@) {
            Some((t, a)) => r matches Some(p) && p.0@ == t && p.1@ == a,
            None => r is None,
        },
{
    proof {
        reveal_strlit(" - ");
    }
    let chars = chars_of(text);
    let sep = chars_of(" - ");
    if chars.len() < 3 {
        assert(first_occurrence(text@, " - "@, 0) is None);
        return None;
    }
    let mut i: usize = 0;
    assert(" - "@ =~= seq![' ', '-', ' ']);
    while i < chars.len() - 2
        invariant
            " - "@ == seq![' ', '-', ' '],
            chars@ == text@,
            sep@ == " - "@,
            sep@.len() == 3,
            chars@.len() >= 3,
            i <= chars@.len() - 2,
            first_occurrence(text@, " - "@, 0) == first_occurrence(text@, " - "@, i as int),
        decreases chars.len() - i,
    {
        if chars[i] == ' ' && chars[i + 1] == '-' && chars[i + 2] == ' ' {
            assert(chars@.subrange(i as int, i + 3) =~= " - "@);
            let head: Vec<char> = chars_range(&chars, 0, i);
            let tail: Vec<char> = chars_range(&chars, i + 3, chars.len());
            let head_text = string_of(head.as_slice());
            let tail_text = string_of(tail.as_slice());
            let title = owned(trim(head_text.as_str()));
            let artist = owned(trim(tail_text.as_str()));
            return Some((title, artist));
        }
        assert(chars@.subrange(i as int, i + 3) != " - "@) by {
            if chars@.subrange(i as int, i + 3) == " - "@ {
                assert(chars@.subrange(i as int, i + 3)[0] == chars@[i as int]);
                assert(chars@.subrange(i as int, i + 3)[1] == chars@[i + 1]);
                assert(chars@.subrange(i as int, i + 3)[2] == chars@[i + 2]);
            }
        }
        i = i + 1;
    }
    assert(first_occurrence(text@, " - "@, i as int) is None);
    None
}

fn chars_range(chars: &Vec<char>, from: usize, to: usize) -> (r: Vec<char>)
    requires
        from <= to <= chars@.len(),
    ensures
        r@ == chars@.subrange(from as int, to as int),
{
    let mut r: Vec<char> = Vec::new();
    let mut k: usize = from;
    while k < to
        invariant
            from <= k <= to,
            to <= chars@.len(),
            r@ == chars@.subrange(from as int, k as int),
        decreases to - k,
    {
        r.push(chars[k]);
        assert(r@ =~= chars@.subrange(from as int, k + 1));
        k = k + 1;
    }
    r
}

/// Value of a run of decimal digits.
pub open spec fn digits_value(d: Seq<char>) -> int
    decreases d.len(),
{
    if d.len() == 0 {
        0
    } else {
        digits_value(d.drop_last()) * 10 + (d.last() as int - '0' as int)
    }
}

/// Every character is an ASCII decimal digit.
pub open spec fn all_digits(d: Seq<char>) -> bool {
    forall|i: int| 0 <= i < d.len() ==> '0' <= #[trigger] d[i] && d[i] <= '9'
}

/// What `str::parse::<i32>` accepts: an optional `+` or `-`, then one or
/// more decimal digits whose value fits in an `i32`.
pub open spec fn parsed_i32(s: Seq<char>) -> Option<i32> {
    let negative = s.len() > 0 && s[0] == '-';
    let digits = if s.len() > 0 && (s[0] == '-' || s[0] == '+') {
        s.drop_first()
    } else {
        s
    };
    let v = if negative {
        -digits_value(digits)
    } else {
        digits_value(digits)
    };
    if digits.len() == 0 || !all_digits(digits) || v < i32::MIN || v > i32::MAX {
        None
    } else {
        Some(v as i32)
    }
}

proof fn lemma_digits_value_nonneg(d: Seq<char>)
    requires
        all_digits(d),
    ensures
        digits_value(d) >= 0,
    decreases d.len(),
{
    if d.len() > 0 {
        assert(all_digits(d.drop_last()));
        lemma_digits_value_nonneg(d.drop_last());
    }
}

proof fn lemma_digits_value_grows(d: Seq<char>, k: int)
    requires
        all_digits(d),
        0 <= k <= d.len(),
    ensures
        digits_value(d.take(k)) <= digits_value(d),
    decreases d.len() - k,
{
    if k < d.len() {
        lemma_digits_value_grows(d, k + 1);
        assert(d.take(k + 1).drop_last() =~= d.take(k));
        assert(all_digits(d.take(k)));
        lemma_digits_value_nonneg(d.take(k));
    } else {
        assert(d.take(k) =~= d);
    }
}

/// Decimal digits of `n`, most significant first, without leading zeros.
pub open spec fn decimal(n: nat) -> Seq<char>
    decreases n,
{
    if n < 10 {
        seq![('0' as u8 + n) as char]
    } else {
        decimal(n / 10).push(('0' as u8 + n % 10) as char)
    }
}

proof fn lemma_decimal_digits(n: nat)
    ensures
        all_digits(decimal(n)),
        digits_value(decimal(n)) == n,
        decimal(n).len() > 0,
        decimal(n)[0] != '-' && decimal(n)[0] != '+',
        !is_white_space(decimal(n)[0]),
        !is_white_space(decimal(n).last()),
    decreases n,
{
    if n >= 10 {
        lemma_decimal_digits(n / 10);
        let d = decimal(n);
        assert(d.drop_last() =~= decimal(n / 10));
        assert(d[0] == decimal(n / 10)[0]);
        let c = ('0' as u8 + n % 10) as char;
        assert(d.last() == c);
        assert(c as int == 48 + n % 10);
        assert((n / 10) * 10 + n % 10 == n);
        assert(digits_value(d) == digits_value(d.drop_last()) * 10 + (d.last() as int - '0' as int));
        assert('0' as int == 48);
    } else {
        let c = ('0' as u8 + n) as char;
        assert(c as int == 48 + n);
        assert(decimal(n).drop_last() =~= Seq::<char>::empty());
        assert(digits_value(Seq::<char>::empty()) == 0);
        assert('0' as int == 48);
        assert(decimal(n).last() == c);
        assert(digits_value(decimal(n)) == n);
    }
}

/// Law of the process id file: the decimal text of a process id that fits
/// in an `i32`, as the daemon writes it, reads back as that id.
pub proof fn lemma_pid_file_round_trip(pid: nat)
    requires
        pid <= i32::MAX,
    ensures
        parsed_i32(trimmed(decimal(pid))) == Some(pid as i32),
{
    lemma_decimal_digits(pid);
    let d = decimal(pid);
    assert(trim_start_chars(d) == d);
    assert(trim_end_chars(d) == d);
}

/// Parses the content of a process id file: the text without surrounding
/// white space, read as an `i32`.
pub fn parse_pid(content: &str) -> (r: Option<i32>)
    ensures
        r == parsed_i32(trimmed(content@)),
{
    let text = trim(content);
    let chars = chars_of(text);
    let ghost s = chars@;
    let mut start: usize = 0;
    let mut negative = false;
    if chars.len() > 0 && (chars[0] == '-' || chars[0] == '+') {
        negative = chars[0] == '-';
        start = 1;
    }
    let ghost digits = if start == 1 {
        s.drop_first()
    } else {
        s
    };
    assert(digits =~= s.skip(start as int));
    if start == chars.len() {
        return None;
    }
    let mut acc: i64 = 0;
    let mut i: usize = start;
    while i < chars.len()
        invariant
            start <= i <= chars.len(),
            s == chars@,
            s == trimmed(content@),
            (start == 1) == (s.len() > 0 && (s[0] == '-' || s[0] == '+')),
            start == 0 || start == 1,
            negative == (s.len() > 0 && s[0] == '-'),
            digits == s.skip(start as int),
            digits == if start == 1 {
                s.drop_first()
            } else {
                s
            },
            all_digits(digits.take(i - start)),
            acc == digits_value(digits.take(i - start)),
            0 <= acc <= 0x8000_0000,
        decreases chars.len() - i,
    {
        let c = chars[i];
        assert(digits.take(i + 1 - start).drop_last() =~= digits.take(i - start));
        assert(digits[i - start] == c);
        if c < '0' || c > '9' {
            assert(!all_digits(digits));
            return None;
        }
        let d = (c as u32 - '0' as u32) as i64;
        acc = acc * 10 + d;
        assert(all_digits(digits.take(i + 1 - start)));
        assert(acc == digits_value(digits.take(i + 1 - start)));
        if acc > 0x8000_0000 {
            proof {
                assert(digits.take(digits.len() as int) =~= digits);
                if all_digits(digits) {
                    lemma_digits_value_grows(digits, i + 1 - start);
                    assert(digits_value(digits) > 0x8000_0000);
                }
                assert(parsed_i32(s) is None);
            }
            return None;
        }
        i = i + 1;
    }
    assert(digits.take(digits.len() as int) =~= digits);
    if negative {
        Some((0 - acc) as i32)
    } else if acc > 0x7fff_ffff {
        None
    } else {
        Some(acc as i32)
    }
}

/// Capture source named by the lower-case text `lower`: "monitor" and
/// "mic" select those sources, anything else selects `Auto`.
pub fn source_mode_from_lowercase(lower: &str) -> (mode: AudioSourceMode)
    ensures
        lower@ == "monitor"@ ==> mode == AudioSourceMode::Monitor,
        lower@ == "mic"@ ==> mode == AudioSourceMode::Mic,
        lower@ != "monitor"@ && lower@ != "mic"@ ==> mode == AudioSourceMode::Auto,
{
    proof {
        reveal_strlit("monitor");
        reveal_strlit("mic");
        assert("monitor"@.len() != "mic"@.len());
    }
    if str_eq(lower, "monitor") {
        AudioSourceMode::Monitor
    } else if str_eq(lower, "mic") {
        AudioSourceMode::Mic
    } else {
        AudioSourceMode::Auto
    }
}

/// Capture source named on the command line, in any case.
pub fn source_mode_from_name(name: &str) -> (mode: AudioSourceMode)
    ensures
        lowercase(name@) == "monitor"@ ==> mode == AudioSourceMode::Monitor,
        lowercase(name@) == "mic"@ ==> mode == AudioSourceMode::Mic,
        lowercase(name@) != "monitor"@ && lowercase(name@) != "mic"@ ==> mode
            == AudioSourceMode::Auto,
{
    let lower = to_lowercase(name);
    source_mode_from_lowercase(lower.as_str())
}

/// Length in whole milliseconds of `samples` 16 kHz samples, saturated
/// at `u32::MAX`.
pub fn sample_duration_ms(samples: usize) -> (ms: u32)
    ensures
        ms == if samples / 16 <= u32::MAX {
            (samples / 16) as int
        } else {
            u32::MAX as int
        },
{
    let q = samples / 16;
    if q as u64 > u32::MAX as u64 {
        u32::MAX
    } else {
        q as u32
    }
}

/// What the daemon does when it is toggled.
#[derive(Debug, Clone, Copy, PartialEq, Eq, Structural)]
pub enum ToggleEffect {
    /// Clear the sample accumulator, resume capture, report "listening".
    StartListening,
    /// Pause capture, clear the accumulator and the current song, remove
    /// the current-song file, report "paused".
    StopListening,
}

/// What the daemon does after a recognition attempt.
#[derive(Debug, Clone, Copy, PartialEq, Eq, Structural)]
pub enum RecognitionEffect {
    /// A different song was recognized: log it, show it, publish it, then
    /// clear the accumulator and cool down.
    NewSong,
    /// The same song again: clear the accumulator and cool down.
    SameSong,
    /// Three misses in a row after a song: forget the current song, remove
    /// the current-song file, report "listening".
    ForgetSong,
    /// Nothing to do.
    KeepListening,
}

/// Outcome of a missed recognition for the last recognized song `last` and
/// `misses` earlier misses in a row: the song and miss count afterwards,
/// and whether the song is forgotten (the third miss in a row, or later,
/// while a song is known).
pub open spec fn after_miss(last: Seq<char>, misses: u32) -> (Seq<char>, u32, bool) {
    let m = if misses < u32::MAX {
        (misses + 1) as u32
    } else {
        misses
    };
    let forget = m >= MISSES_BEFORE_FORGET && last.len() > 0;
    (if forget {
        Seq::<char>::empty()
    } else {
        last
    }, m, forget)
}

/// Law of the recognition loop: whatever the state, after three misses in
/// a row no song is current any more.
pub proof fn lemma_three_misses_forget_song(last: Seq<char>, misses: u32)
    ensures
        ({
            let (l1, m1, f1) = after_miss(last, misses);
            let (l2, m2, f2) = after_miss(l1, m1);
            let (l3, m3, f3) = after_miss(l2, m2);
            l3.len() == 0
        }),
{
}

/// Decision state of the daemon's main loop.
pub struct DaemonState {
    pub is_listening: bool,
    pub last_detected_id: String,
    pub miss_count: u32,
}

/// Misses in a row after which the current song is forgotten.
pub const MISSES_BEFORE_FORGET: u32 = 3;

impl DaemonState {
    /// The state at start-up: paused, no song, no misses.
    pub fn new() -> (s: Self)
        ensures
            !s.is_listening,
            s.last_detected_id@ == Seq::<char>::empty(),
            s.miss_count == 0,
    {
        DaemonState { is_listening: false, last_detected_id: String::new(), miss_count: 0 }
    }

    /// Handles the toggle signal: flips listening and forgets the last song.
    pub fn toggle(&mut self) -> (effect: ToggleEffect)
        ensures
            final(self).is_listening == !old(self).is_listening,
            final(self).last_detected_id@ == Seq::<char>::empty(),
            final(self).miss_count == old(self).miss_count,
            effect == if final(self).is_listening {
                ToggleEffect::StartListening
            } else {
                ToggleEffect::StopListening
            },
    {
        self.is_listening = !self.is_listening;
        self.last_detected_id = String::new();
        if self.is_listening {
            ToggleEffect::StartListening
        } else {
            ToggleEffect::StopListening
        }
    }

    /// Whether a tick analyses the buffered audio: only while listening and
    /// once at least three seconds are buffered.
    pub fn should_analyze(&self, buffered_samples: usize) -> (r: bool)
        ensures
            r == (self.is_listening && buffered_samples >= 3 * SAMPLE_RATE),
    {
        self.is_listening && buffered_samples >= 3 * SAMPLE_RATE
    }

    /// Handles the outcome of a recognition attempt: the identifier of the
    /// recognized song, or none for a miss.
    pub fn on_recognition(&mut self, song_id: Option<String>) -> (effect: RecognitionEffect)
        ensures
            final(self).is_listening == old(self).is_listening,
            match song_id {
                Some(id) => {
                    &&& final(self).miss_count == 0
                    &&& final(self).last_detected_id@ == id@
                    &&& effect == if id@ != old(self).last_detected_id@ {
                        RecognitionEffect::NewSong
                    } else {
                        RecognitionEffect::SameSong
                    }
                },
                None => {
                    let (last, misses, forget) = after_miss(
                        old(self).last_detected_id@,
                        old(self).miss_count,
                    );
                    &&& final(self).miss_count == misses
                    &&& final(self).last_detected_id@ == last
                    &&& effect == if forget {
                        RecognitionEffect::ForgetSong
                    } else {
                        RecognitionEffect::KeepListening
                    }
                },
            },
    {
        match song_id {
            Some(id) => {
                self.miss_count = 0;
                if !str_eq(id.as_str(), self.last_detected_id.as_str()) {
                    self.last_detected_id = id;
                    RecognitionEffect::NewSong
                } else {
                    self.last_detected_id = id;
                    RecognitionEffect::SameSong
                }
            },
            None => {
                if self.miss_count < u32::MAX {
                    self.miss_count = self.miss_count + 1;
                }
                if self.miss_count >= MISSES_BEFORE_FORGET && !self.last_detected_id.as_str().is_empty() {
                    self.last_detected_id = String::new();
                    RecognitionEffect::ForgetSong
                } else {
                    RecognitionEffect::KeepListening
                }
            },
        }
    }
}


/// Law of the status panel's tooltip: it opens with the bold title span; the
/// span's text runs up to the next `<` (where the span closes), holds none of
/// `<`, `>`, `"` and `'`, and decodes back to exactly the song's title. So a
/// character of the title with a meaning in markup always arrives escaped.
pub proof fn lemma_tooltip_title_is_escaped(song: RecognizedSong)
    ensures
        ({
            let t = found_tooltip(song);
            let open = "<span size='13000' weight='bold'>"@;
            let k = open.len() as int;
            let m = k + html_escaped(song.title@).len();
            &&& t.len() > m
            &&& t.subrange(0, k) == open
            &&& t[m] == '<'
            &&& forall|i: int| k <= i < m ==> t[i] != '<' && t[i] != '>' && t[i] != '"' && t[i] != '\''
            &&& html_unescaped(t.subrange(k, m)) == song.title@
        }),
{
    let t = found_tooltip(song);
    let open = "<span size='13000' weight='bold'>"@;
    let close = "</span>\n<span size='11000' color='#cccccc'><i>by</i> "@;
    reveal_strlit("</span>\n<span size='11000' color='#cccccc'><i>by</i> ");
    let e = html_escaped(song.title@);
    let rest = close + html_escaped(song.artist@) + "</span>"@ + match song.album {
        Some(a) => "\n<b>Album:</b> "@ + html_escaped(a@),
        None => Seq::<char>::empty(),
    } + match song.genre {
        Some(g) => "\n<b>Genre:</b> "@ + html_escaped(g@),
        None => Seq::<char>::empty(),
    };
    assert(t =~= open + e + rest);
    assert(rest[0] == '<');
    let k = open.len() as int;
    let m = k + e.len();
    assert(t.subrange(0, k) =~= open);
    assert(t.subrange(k, m) =~= e);
    assert(t[m] == rest[0]);
    lemma_escaped_text_has_no_markup(song.title@);
    assert forall|i: int| k <= i < m implies t[i] != '<' && t[i] != '>' && t[i] != '"' && t[i]
        != '\'' by {
        assert(t[i] == e[i - k]);
    }
    lemma_unescape_inverts_escape(song.title@);
}


/// From position `k` on, `t` holds the escaped form of `s`: as many
/// characters as escaping `s` gives, none of them `<`, `>`, `"` or `'`, and
/// decoding back to exactly `s`.
pub open spec fn holds_escaped_at(t: Seq<char>, k: int, s: Seq<char>) -> bool {
    let m = k + html_escaped(s).len();
    &&& 0 <= k
    &&& m <= t.len()
    &&& forall|i: int| k <= i < m ==> t[i] != '<' && t[i] != '>' && t[i] != '"' && t[i] != '\''
    &&& html_unescaped(t.subrange(k, m)) == s
}

proof fn lemma_holds_escaped(pre: Seq<char>, s: Seq<char>, post: Seq<char>)
    ensures
        holds_escaped_at(pre + html_escaped(s) + post, pre.len() as int, s),
{
    let t = pre + html_escaped(s) + post;
    let e = html_escaped(s);
    let k = pre.len() as int;
    assert(t.subrange(k, k + e.len()) =~= e);
    lemma_escaped_text_has_no_markup(s);
    assert forall|i: int| k <= i < k + e.len() implies t[i] != '<' && t[i] != '>' && t[i] != '"'
        && t[i] != '\'' by {
        assert(t[i] == e[i - k]);
    }
    lemma_unescape_inverts_escape(s);
}

/// Law of the status panel's tooltip for the other fields: after the title
/// span, the `by` line holds the escaped artist, which the closing `</span>`
/// follows; then, when known, the album line holds the escaped album and
/// the genre line the escaped genre, each decoding back to exactly the field
/// and holding no character that opens, closes or quotes markup.
pub proof fn lemma_tooltip_fields_are_escaped(song: RecognizedSong)
    ensures
        ({
            let t = found_tooltip(song);
            let ka: int = ("<span size='13000' weight='bold'>"@.len() + html_escaped(song.title@).len()
                + "</span>\n<span size='11000' color='#cccccc'><i>by</i> "@.len()) as int;
            let end_artist: int = ka + html_escaped(song.artist@).len();
            let kal: int = end_artist + "</span>"@.len() + "\n<b>Album:</b> "@.len();
            let end_album: int = match song.album {
                Some(a) => kal + html_escaped(a@).len(),
                None => end_artist + "</span>"@.len(),
            };
            &&& holds_escaped_at(t, ka, song.artist@)
            &&& t.subrange(end_artist, end_artist + 7) == "</span>"@
            &&& (song.album matches Some(a) ==> holds_escaped_at(t, kal, a@))
            &&& (song.genre matches Some(g) ==> holds_escaped_at(
                t,
                end_album + "\n<b>Genre:</b> "@.len() as int,
                g@,
            ))
            &&& (song.album is None && song.genre is None ==> t.len() == end_artist + 7)
        }),
{
    let open = "<span size='13000' weight='bold'>"@;
    let close = "</span>\n<span size='11000' color='#cccccc'><i>by</i> "@;
    let span_end = "</span>"@;
    let al = "\n<b>Album:</b> "@;
    let ge = "\n<b>Genre:</b> "@;
    reveal_strlit("</span>");
    let et = html_escaped(song.title@);
    let ea = html_escaped(song.artist@);
    let album_part = match song.album {
        Some(a) => al + html_escaped(a@),
        None => Seq::<char>::empty(),
    };
    let genre_part = match song.genre {
        Some(g) => ge + html_escaped(g@),
        None => Seq::<char>::empty(),
    };
    let t = found_tooltip(song);
    assert(t =~= open + et + close + ea + span_end + album_part + genre_part);
    lemma_holds_escaped(open + et + close, song.artist@, span_end + album_part + genre_part);
    assert(open + et + close + ea + (span_end + album_part + genre_part) =~= t);
    let end_artist = (open + et + close + ea).len() as int;
    assert(t.subrange(end_artist, end_artist + 7) =~= span_end);
    if let Some(a) = song.album {
        lemma_holds_escaped(open + et + close + ea + span_end + al, a@, genre_part);
        assert(open + et + close + ea + span_end + al + html_escaped(a@) + genre_part =~= t);
    }
    if let Some(g) = song.genre {
        lemma_holds_escaped(
            open + et + close + ea + span_end + album_part + ge,
            g@,
            Seq::<char>::empty(),
        );
        assert(open + et + close + ea + span_end + album_part + ge + html_escaped(g@)
            + Seq::<char>::empty() =~= t);
    }
}

} // verus!
