use vstd::prelude::*;

verus! {

/// The characters of `s`, in order.
pub fn chars_of(s: &str) -> (v: Vec<char>)
    ensures
        v@ == s@,
{
    let mut v: Vec<char> = Vec::new();
    for c in it: s.chars()
        invariant
            v@ == it.seq().take(it.index() as int),
    {
        v.push(c);
    }
    v
}

/// Appends `c` with `String::push`; the contract claims the text grows by
/// exactly that character.
#[verifier::external_body]
pub(crate) fn push_char(s: &mut String, c: char)
    ensures
        final(s)@ == old(s)@.push(c),
{
    s.push(c)
}

/// A string holding the given characters.
pub fn string_of(chars: &[char]) -> (s: String)
    ensures
        s@ == chars@,
{
    let mut s = String::new();
    let mut i: usize = 0;
    while i < chars.len()
        invariant
            i <= chars.len(),
            s@ == chars@.take(i as int),
        decreases chars.len() - i,
    {
        push_char(&mut s, chars[i]);
        assert(chars@.take(i + 1) =~= chars@.take(i as int).push(chars@[i as int]));
        i = i + 1;
    }
    assert(chars@.take(chars.len() as int) =~= chars@);
    s
}

/// A copy of `s`.
pub fn owned(s: &str) -> (r: String)
    ensures
        r@ == s@,
{
    String::from_str(s)
}

/// The concatenation of `a` and `b`.
pub fn concat(a: &str, b: &str) -> (r: String)
    ensures
        r@ == a@ + b@,
{
    let mut r = String::from_str(a);
    r.append(b);
    r
}

/// Unicode `White_Space` characters, which `str::trim` removes.
pub open spec fn is_white_space(c: char) -> bool {
    let u = c as u32;
    (0x9 <= u && u <= 0xd) || u == 0x20 || u == 0x85 || u == 0xa0 || u == 0x1680 || (0x2000 <= u
        && u <= 0x200a) || u == 0x2028 || u == 0x2029 || u == 0x202f || u == 0x205f || u == 0x3000
}

/// `s` without its leading white space.
pub open spec fn trim_start_chars(s: Seq<char>) -> Seq<char>
    decreases s.len(),
{
    if s.len() > 0 && is_white_space(s[0]) {
        trim_start_chars(s.drop_first())
    } else {
        s
    }
}

/// `s` without its trailing white space.
pub open spec fn trim_end_chars(s: Seq<char>) -> Seq<char>
    decreases s.len(),
{
    if s.len() > 0 && is_white_space(s.last()) {
        trim_end_chars(s.drop_last())
    } else {
        s
    }
}

/// `s` without leading and trailing white space.
pub open spec fn trimmed(s: Seq<char>) -> Seq<char> {
    trim_end_chars(trim_start_chars(s))
}

/// Calls `str::trim`; the contract claims the result is `s` without its
/// leading and trailing Unicode white space.
#[verifier::external_body]
pub(crate) fn trim(s: &str) -> (r: &str)
    ensures
        r@ == trimmed(s@),
{
    s.trim()
}

/// Name of the text that `str::to_lowercase` gives for `s` (full Unicode
/// lower-case mapping).
pub uninterp spec fn lowercase(s: Seq<char>) -> Seq<char>;

/// Every character is ASCII.
pub open spec fn all_ascii(s: Seq<char>) -> bool {
    forall|i: int| 0 <= i < s.len() ==> (#[trigger] s[i] as u32) < 128
}

/// `s` with ASCII upper-case letters mapped to lower case.
pub open spec fn ascii_lower_text(s: Seq<char>) -> Seq<char> {
    s.map_values(|c: char| ascii_lower(c))
}

/// `c` with ASCII lower-case letters mapped to upper case.
pub open spec fn ascii_upper(c: char) -> char {
    if 'a' <= c && c <= 'z' {
        ((c as u8) - 32) as char
    } else {
        c
    }
}

/// `s` with ASCII lower-case letters mapped to upper case.
pub open spec fn ascii_upper_text(s: Seq<char>) -> Seq<char> {
    s.map_values(|c: char| ascii_upper(c))
}

/// Calls `str::to_lowercase`; the contract claims that the result is the
/// named lower-case form of `s`, and, as the Unicode lower-case mapping
/// that the documentation names maps `A`-`Z` to `a`-`z` and leaves every
/// other ASCII character alone, that for ASCII text it is the ASCII
/// lower-case form.
#[verifier::external_body]
pub(crate) fn to_lowercase(s: &str) -> (r: String)
    ensures
        r@ == lowercase(s@),
        all_ascii(s@) ==> r@ == ascii_lower_text(s@),
{
    s.to_lowercase()
}

/// `needle` occurs in `hay` as a contiguous run (the empty needle always does).
pub open spec fn is_substring(hay: Seq<char>, needle: Seq<char>) -> bool {
    exists|i: int|
        0 <= i <= hay.len() - needle.len() && #[trigger] hay.subrange(i, i + needle.len()) == needle
}

/// `s` ends with `suffix`.
pub open spec fn has_suffix(s: Seq<char>, suffix: Seq<char>) -> bool {
    suffix.len() <= s.len() && s.subrange(s.len() - suffix.len(), s.len() as int) == suffix
}

/// `c` with ASCII upper-case letters mapped to lower case.
pub open spec fn ascii_lower(c: char) -> char {
    if 'A' <= c && c <= 'Z' {
        ((c as u8) + 32) as char
    } else {
        c
    }
}

/// `a` and `b` are equal up to ASCII case.
pub open spec fn equal_ignoring_ascii_case(a: Seq<char>, b: Seq<char>) -> bool {
    a.len() == b.len() && forall|i: int| 0 <= i < a.len() ==> ascii_lower(#[trigger] a[i]) == ascii_lower(b[i])
}

fn ascii_lower_of(c: char) -> (r: char)
    ensures
        r == ascii_lower(c),
{
    if 'A' <= c && c <= 'Z' {
        ((c as u8) + 32) as char
    } else {
        c
    }
}

/// Whether `a` and `b` are the same text.
pub fn str_eq(a: &str, b: &str) -> (r: bool)
    ensures
        r == (a@ == b@),
{
    let x = chars_of(a);
    let y = chars_of(b);
    if x.len() != y.len() {
        return false;
    }
    let mut i: usize = 0;
    while i < x.len()
        invariant
            i <= x.len(),
            x@ == a@,
            y@ == b@,
            x.len() == y.len(),
            forall|j: int| 0 <= j < i ==> x@[j] == y@[j],
        decreases x.len() - i,
    {
        if x[i] != y[i] {
            return false;
        }
        i = i + 1;
    }
    assert(x@ =~= y@);
    true
}

/// Whether `a` and `b` are equal up to ASCII case (`str::eq_ignore_ascii_case`).
pub fn eq_ignore_ascii_case(a: &str, b: &str) -> (r: bool)
    ensures
        r == equal_ignoring_ascii_case(a@, b@),
{
    let x = chars_of(a);
    let y = chars_of(b);
    if x.len() != y.len() {
        return false;
    }
    let mut i: usize = 0;
    while i < x.len()
        invariant
            i <= x.len(),
            x@ == a@,
            y@ == b@,
            x.len() == y.len(),
            forall|j: int| 0 <= j < i ==> ascii_lower(#[trigger] x@[j]) == ascii_lower(y@[j]),
        decreases x.len() - i,
    {
        if ascii_lower_of(x[i]) != ascii_lower_of(y[i]) {
            return false;
        }
        i = i + 1;
    }
    true
}

/// Whether `needle` occurs at position `i` of `hay`.
fn occurs_at(hay: &Vec<char>, needle: &Vec<char>, i: usize) -> (r: bool)
    requires
        i + needle.len() <= hay.len(),
    ensures
        r == (hay@.subrange(i as int, i + needle@.len()) == needle@),
{
    let mut k: usize = 0;
    while k < needle.len()
        invariant
            k <= needle.len(),
            i + needle.len() <= hay.len(),
            forall|j: int| 0 <= j < k ==> hay@[i + j] == needle@[j],
        decreases needle.len() - k,
    {
        if hay[i + k] != needle[k] {
            assert(hay@.subrange(i as int, i + needle@.len())[k as int] != needle@[k as int]);
            return false;
        }
        k = k + 1;
    }
    assert(hay@.subrange(i as int, i + needle@.len()) =~= needle@);
    true
}

/// Whether `needle` occurs in `hay` (`str::contains` with a string pattern).
pub fn contains(hay: &str, needle: &str) -> (r: bool)
    ensures
        r == is_substring(hay@, needle@),
{
    let h = chars_of(hay);
    let n = chars_of(needle);
    if n.len() > h.len() {
        return false;
    }
    let last = h.len() - n.len();
    let mut i: usize = 0;
    loop
        invariant
            h@ == hay@,
            n@ == needle@,
            last == h@.len() - n@.len(),
            i <= last,
            forall|j: int| 0 <= j < i ==> #[trigger] h@.subrange(j, j + n@.len()) != n@,
        decreases last - i,
    {
        if occurs_at(&h, &n, i) {
            return true;
        }
        if i == last {
            return false;
        }
        i = i + 1;
    }
}

/// Whether `s` ends with `suffix` (`str::ends_with` with a string pattern).
pub fn ends_with(s: &str, suffix: &str) -> (r: bool)
    ensures
        r == has_suffix(s@, suffix@),
{
    let h = chars_of(s);
    let n = chars_of(suffix);
    if n.len() > h.len() {
        return false;
    }
    occurs_at(&h, &n, h.len() - n.len())
}

/// `s` with each leftmost non-overlapping occurrence of the non-empty `pat`
/// replaced by `to`, scanning from the start (`str::replace`).
pub open spec fn replaced(s: Seq<char>, pat: Seq<char>, to: Seq<char>) -> Seq<char>
    decreases s.len(),
{
    if pat.len() == 0 || s.len() < pat.len() {
        s
    } else if s.subrange(0, pat.len() as int) == pat {
        to + replaced(s.skip(pat.len() as int), pat, to)
    } else {
        seq![s[0]] + replaced(s.drop_first(), pat, to)
    }
}

/// `s` with every occurrence of the non-empty `pat` replaced by `to`.
pub fn replace_all(s: &str, pat: &str, to: &str) -> (r: String)
    requires
        pat@.len() > 0,
    ensures
        r@ == replaced(s@, pat@, to@),
{
    let h = chars_of(s);
    let p = chars_of(pat);
    let t = chars_of(to);
    let mut out: Vec<char> = Vec::new();
    let mut i: usize = 0;
    assert(h@.skip(0) =~= h@);
    assert(out@ + replaced(h@, p@, t@) =~= replaced(h@, p@, t@));
    while i < h.len()
        invariant
            h@ == s@,
            p@ == pat@,
            t@ == to@,
            p@.len() > 0,
            i <= h@.len(),
            replaced(s@, pat@, to@) == out@ + replaced(h@.skip(i as int), p@, t@),
        decreases h.len() - i,
    {
        let ghost rest = h@.skip(i as int);
        if p.len() <= h.len() - i && occurs_at(&h, &p, i) {
            assert(rest.subrange(0, p@.len() as int) =~= h@.subrange(i as int, i + p@.len()));
            assert(rest.skip(p@.len() as int) =~= h@.skip(i + p@.len()));
            let mut k: usize = 0;
            let ghost before = out@;
            while k < t.len()
                invariant
                    k <= t@.len(),
                    out@ == before + t@.take(k as int),
                decreases t.len() - k,
            {
                out.push(t[k]);
                assert(t@.take(k + 1) =~= t@.take(k as int).push(t@[k as int]));
                k = k + 1;
            }
            assert(t@.take(t@.len() as int) =~= t@);
            assert(out@ + replaced(h@.skip(i + p@.len()), p@, t@) =~= before + (t@ + replaced(
                h@.skip(i + p@.len()),
                p@,
                t@,
            )));
            i = i + p.len();
        } else {
            if p.len() <= h.len() - i {
                assert(rest.subrange(0, p@.len() as int) =~= h@.subrange(i as int, i + p@.len()));
            }
            assert(rest.drop_first() =~= h@.skip(i + 1));
            let ghost before = out@;
            out.push(h[i]);
            assert(out@ + replaced(h@.skip(i + 1), p@, t@) =~= before + (seq![h@[i as int]]
                + replaced(h@.skip(i + 1), p@, t@)));
            i = i + 1;
        }
    }
    assert(h@.skip(h@.len() as int) =~= Seq::<char>::empty());
    assert(out@ + replaced(Seq::<char>::empty(), p@, t@) =~= out@);
    string_of(out.as_slice())
}

/// All characters of `s` are white space.
pub open spec fn all_white_space(s: Seq<char>) -> bool {
    forall|i: int| 0 <= i < s.len() ==> is_white_space(#[trigger] s[i])
}

proof fn lemma_trim_start_after_space(pre: Seq<char>, y: Seq<char>)
    requires
        all_white_space(pre),
    ensures
        trim_start_chars(pre + y) == trim_start_chars(y),
    decreases pre.len(),
{
    if pre.len() > 0 {
        assert((pre + y)[0] == pre[0]);
        assert((pre + y).drop_first() =~= pre.drop_first() + y);
        lemma_trim_start_after_space(pre.drop_first(), y);
    } else {
        assert(pre + y =~= y);
    }
}

proof fn lemma_trim_end_before_space(y: Seq<char>, post: Seq<char>)
    requires
        all_white_space(post),
    ensures
        trim_end_chars(y + post) == trim_end_chars(y),
    decreases post.len(),
{
    if post.len() > 0 {
        assert((y + post).last() == post.last());
        assert((y + post).drop_last() =~= y + post.drop_last());
        lemma_trim_end_before_space(y, post.drop_last());
    } else {
        assert(y + post =~= y);
    }
}

proof fn lemma_trim_start_of_space(x: Seq<char>)
    requires
        all_white_space(x),
    ensures
        trim_start_chars(x) == Seq::<char>::empty(),
    decreases x.len(),
{
    if x.len() > 0 {
        lemma_trim_start_of_space(x.drop_first());
    }
}

proof fn lemma_trim_start_append(x: Seq<char>, z: Seq<char>)
    requires
        !all_white_space(x),
    ensures
        trim_start_chars(x + z) == trim_start_chars(x) + z,
    decreases x.len(),
{
    assert(x.len() > 0);
    assert((x + z)[0] == x[0]);
    if is_white_space(x[0]) {
        assert((x + z).drop_first() =~= x.drop_first() + z);
        assert(!all_white_space(x.drop_first())) by {
            let k = choose|k: int| 0 <= k < x.len() && !is_white_space(#[trigger] x[k]);
            assert(x.drop_first()[k - 1] == x[k]);
        }
        lemma_trim_start_append(x.drop_first(), z);
    }
}

/// Trimming ignores white space added around a text.
proof fn lemma_trim_ignores_padding(pre: Seq<char>, y: Seq<char>, post: Seq<char>)
    requires
        all_white_space(pre),
        all_white_space(post),
    ensures
        trimmed(pre + y + post) == trimmed(y),
{
    assert(pre + y + post =~= pre + (y + post));
    lemma_trim_start_after_space(pre, y + post);
    if all_white_space(y) {
        lemma_trim_start_after_space(y, post);
        lemma_trim_start_of_space(post);
        lemma_trim_start_of_space(y);
    } else {
        lemma_trim_start_append(y, post);
        lemma_trim_end_before_space(trim_start_chars(y), post);
    }
}

proof fn lemma_upper_keeps_space(c: char)
    ensures
        is_white_space(ascii_upper(c)) == is_white_space(c),
        ascii_lower(ascii_upper(c)) == ascii_lower(c),
        (c as u32) < 128 ==> (ascii_upper(c) as u32) < 128,
{
}

proof fn lemma_trim_commutes_with_upper(s: Seq<char>)
    ensures
        trim_start_chars(ascii_upper_text(s)) == ascii_upper_text(trim_start_chars(s)),
        trim_end_chars(ascii_upper_text(s)) == ascii_upper_text(trim_end_chars(s)),
    decreases s.len(),
{
    if s.len() > 0 {
        lemma_upper_keeps_space(s[0]);
        lemma_upper_keeps_space(s.last());
        assert(ascii_upper_text(s).drop_first() =~= ascii_upper_text(s.drop_first()));
        assert(ascii_upper_text(s).drop_last() =~= ascii_upper_text(s.drop_last()));
        lemma_trim_commutes_with_upper(s.drop_first());
        lemma_trim_commutes_with_upper(s.drop_last());
    }
}

proof fn lemma_trim_keeps_ascii(s: Seq<char>)
    requires
        all_ascii(s),
    ensures
        all_ascii(trim_start_chars(s)),
        all_ascii(trim_end_chars(s)),
    decreases s.len(),
{
    if s.len() > 0 {
        assert(all_ascii(s.drop_first()));
        assert(all_ascii(s.drop_last()));
        lemma_trim_keeps_ascii(s.drop_first());
        lemma_trim_keeps_ascii(s.drop_last());
    }
}

/// Law of text normalization: for ASCII text, trimming gives ASCII text
/// whose ASCII lower-case form is the same whether or not the text was
/// upper-cased and padded with white space first.
pub proof fn lemma_lowercase_trim_ignores_case_and_padding(
    q: Seq<char>,
    pre: Seq<char>,
    post: Seq<char>,
)
    requires
        all_ascii(q),
        all_white_space(pre),
        all_white_space(post),
    ensures
        all_ascii(trimmed(q)),
        all_ascii(trimmed(pre + ascii_upper_text(q) + post)),
        ascii_lower_text(trimmed(pre + ascii_upper_text(q) + post)) == ascii_lower_text(trimmed(q)),
{
    lemma_trim_ignores_padding(pre, ascii_upper_text(q), post);
    lemma_trim_commutes_with_upper(q);
    lemma_trim_commutes_with_upper(trim_start_chars(q));
    let t = trimmed(q);
    lemma_trim_keeps_ascii(q);
    lemma_trim_keeps_ascii(trim_start_chars(q));
    assert(trimmed(ascii_upper_text(q)) == ascii_upper_text(t));
    assert(all_ascii(ascii_upper_text(t))) by {
        assert forall|i: int| 0 <= i < ascii_upper_text(t).len() implies (#[trigger] ascii_upper_text(t)[i] as u32) < 128 by {
            lemma_upper_keeps_space(t[i]);
        }
    }
    assert(ascii_lower_text(ascii_upper_text(t)) =~= ascii_lower_text(t)) by {
        assert forall|i: int| 0 <= i < t.len() implies #[trigger] ascii_lower_text(ascii_upper_text(t))[i] == ascii_lower_text(t)[i] by {
            lemma_upper_keeps_space(t[i]);
        }
    }
}

} // verus!
