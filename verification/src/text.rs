//! Character-level text helpers shared by the parsers: whitespace, trimming,
//! prefixes, substring search, and conversions between `String` and chars.

use vstd::prelude::*;

verus! {

broadcast use vstd::string::group_string_axioms;

/// The Unicode `White_Space` property (the set `char::is_whitespace` tests).
pub open spec fn is_white_space(c: char) -> bool {
    let u = c as u32;
    ||| 0x09 <= u <= 0x0D
    ||| u == 0x20
    ||| u == 0x85
    ||| u == 0xA0
    ||| u == 0x1680
    ||| 0x2000 <= u <= 0x200A
    ||| u == 0x2028
    ||| u == 0x2029
    ||| u == 0x202F
    ||| u == 0x205F
    ||| u == 0x3000
}

/// Whether `c` has the Unicode `White_Space` property.
pub fn is_whitespace_char(c: char) -> (b: bool)
    ensures
        b == is_white_space(c),
{
    let u = c as u32;
    (0x09 <= u && u <= 0x0D) || u == 0x20 || u == 0x85 || u == 0xA0 || u == 0x1680 || (0x2000 <= u
        && u <= 0x200A) || u == 0x2028 || u == 0x2029 || u == 0x202F || u == 0x205F || u == 0x3000
}

/// The characters of `s`, in order.
pub fn chars_of(s: &str) -> (v: Vec<char>)
    ensures
        v@ == s@,
{
    let mut v: Vec<char> = Vec::new();
    for c in it: s.chars()
        invariant
            v@ == it.seq().take(it.index()),
            it.seq() == s@,
    {
        v.push(c);
        assert(v@ =~= it.seq().take(it.index() + 1));
    }
    assert(v@ =~= s@);
    v
}

/// `String::push`: claimed to leave the string holding its old characters
/// followed by `c`.
#[verifier::external_body]
pub(crate) fn push_char(s: &mut String, c: char)
    ensures
        final(s)@ == old(s)@.push(c),
{
    s.push(c);
}

/// A `String` holding exactly the characters of `v`.
pub fn string_of(v: &[char]) -> (s: String)
    ensures
        s@ == v@,
{
    let mut s = String::new();
    let mut i: usize = 0;
    while i < v.len()
        invariant
            i <= v@.len(),
            s@ == v@.take(i as int),
        decreases v@.len() - i,
    {
        push_char(&mut s, v[i]);
        assert(v@.take(i as int).push(v@[i as int]) =~= v@.take(i + 1));
        i = i + 1;
    }
    assert(v@.take(v@.len() as int) =~= v@);
    s
}

/// `needle` occurs in `hay` starting at index `i`.
pub open spec fn occurs_at(hay: Seq<char>, needle: Seq<char>, i: int) -> bool {
    0 <= i && i + needle.len() <= hay.len() && hay.subrange(i, i + needle.len()) == needle
}

/// `needle` occurs somewhere in `hay` (the empty needle occurs everywhere).
pub open spec fn contains(hay: Seq<char>, needle: Seq<char>) -> bool {
    exists|i: int| occurs_at(hay, needle, i)
}

/// `s` begins with `p`.
pub open spec fn has_prefix(s: Seq<char>, p: Seq<char>) -> bool {
    p.len() <= s.len() && s.subrange(0, p.len() as int) == p
}

/// Whether `needle` occurs in `hay` at index `i`.
pub fn matches_at(hay: &[char], needle: &[char], i: usize) -> (b: bool)
    requires
        i <= hay@.len(),
    ensures
        b == occurs_at(hay@, needle@, i as int),
{
    if needle.len() > hay.len() - i {
        return false;
    }
    let mut j: usize = 0;
    while j < needle.len()
        invariant
            i + needle@.len() <= hay@.len(),
            hay@.len() == hay.len(),
            j <= needle@.len(),
            forall|k: int| 0 <= k < j ==> hay@[i + k] == needle@[k],
        decreases needle@.len() - j,
    {
        if hay[i + j] != needle[j] {
            assert(hay@.subrange(i as int, i + needle@.len())[j as int] != needle@[j as int]);
            return false;
        }
        j = j + 1;
    }
    assert(hay@.subrange(i as int, i + needle@.len()) =~= needle@);
    true
}

/// Whether `needle` occurs anywhere in `hay` (as `str::contains`).
pub fn contains_chars(hay: &[char], needle: &[char]) -> (b: bool)
    ensures
        b == contains(hay@, needle@),
{
    let mut i: usize = 0;
    loop
        invariant
            i <= hay@.len(),
            forall|k: int| 0 <= k < i ==> !occurs_at(hay@, needle@, k),
        decreases hay@.len() - i,
    {
        if matches_at(hay, needle, i) {
            return true;
        }
        if i == hay.len() {
            assert forall|k: int| !occurs_at(hay@, needle@, k) by {
                if 0 <= k < i {
                } else if k > i {
                }
            }
            return false;
        }
        i = i + 1;
    }
}

/// Whether `s` begins with `p` (as `str::starts_with`).
pub fn starts_with_chars(s: &[char], p: &[char]) -> (b: bool)
    ensures
        b == has_prefix(s@, p@),
{
    let r = matches_at(s, p, 0);
    proof {
        if has_prefix(s@, p@) {
            assert(occurs_at(s@, p@, 0));
        }
    }
    r
}

/// `s` without its leading whitespace (as `str::trim_start`).
pub open spec fn trim_start_ws(s: Seq<char>) -> Seq<char>
    decreases s.len(),
{
    if s.len() > 0 && is_white_space(s[0]) {
        trim_start_ws(s.drop_first())
    } else {
        s
    }
}

/// `s` without its trailing whitespace (as `str::trim_end`).
pub open spec fn trim_end_ws(s: Seq<char>) -> Seq<char>
    decreases s.len(),
{
    if s.len() > 0 && is_white_space(s.last()) {
        trim_end_ws(s.drop_last())
    } else {
        s
    }
}

/// `s` without leading and trailing whitespace (as `str::trim`).
pub open spec fn trim_ws(s: Seq<char>) -> Seq<char> {
    trim_end_ws(trim_start_ws(s))
}

/// `s` without any trailing occurrences of `c` (as `str::trim_end_matches(c)`).
pub open spec fn trim_end_char(s: Seq<char>, c: char) -> Seq<char>
    decreases s.len(),
{
    if s.len() > 0 && s.last() == c {
        trim_end_char(s.drop_last(), c)
    } else {
        s
    }
}

/// A fresh vector holding `s[a..b]`.
pub fn copy_range(s: &[char], a: usize, b: usize) -> (v: Vec<char>)
    requires
        a <= b <= s@.len(),
    ensures
        v@ == s@.subrange(a as int, b as int),
{
    let mut v: Vec<char> = Vec::new();
    let mut i: usize = a;
    while i < b
        invariant
            a <= i <= b <= s@.len(),
            v@ == s@.subrange(a as int, i as int),
        decreases b - i,
    {
        v.push(s[i]);
        assert(v@ =~= s@.subrange(a as int, i + 1));
        i = i + 1;
    }
    v
}

/// `s` with leading and trailing whitespace removed.
pub fn trim_chars(s: &[char]) -> (v: Vec<char>)
    ensures
        v@ == trim_ws(s@),
{
    let mut a: usize = 0;
    assert(s@.skip(0) =~= s@);
    while a < s.len() && is_whitespace_char(s[a])
        invariant
            a <= s@.len(),
            trim_start_ws(s@) == trim_start_ws(s@.skip(a as int)),
        decreases s@.len() - a,
    {
        assert(s@.skip(a as int).drop_first() =~= s@.skip(a + 1));
        a = a + 1;
    }
    assert(trim_start_ws(s@) == s@.skip(a as int)) by {
        if a < s@.len() {
            assert(s@.skip(a as int)[0] == s@[a as int]);
        } else {
            assert(s@.skip(a as int).len() == 0);
        }
    }
    let mut b: usize = s.len();
    while b > a && is_whitespace_char(s[b - 1])
        invariant
            a <= b <= s@.len(),
            trim_start_ws(s@) == s@.skip(a as int),
            trim_end_ws(s@.skip(a as int)) == trim_end_ws(s@.subrange(a as int, b as int)),
        decreases b - a,
    {
        assert(s@.subrange(a as int, b as int).drop_last() =~= s@.subrange(a as int, b - 1));
        b = b - 1;
    }
    assert(trim_end_ws(s@.subrange(a as int, b as int)) == s@.subrange(a as int, b as int)) by {
        if b > a {
            assert(s@.subrange(a as int, b as int).last() == s@[b - 1]);
        }
    }
    assert(s@.skip(a as int) =~= s@.subrange(a as int, s@.len() as int));
    copy_range(s, a, b)
}

/// `s` with every trailing `c` removed.
pub fn trim_end_char_chars(s: &[char], c: char) -> (v: Vec<char>)
    ensures
        v@ == trim_end_char(s@, c),
{
    let mut b: usize = s.len();
    assert(s@.subrange(0, s@.len() as int) =~= s@);
    while b > 0 && s[b - 1] == c
        invariant
            b <= s@.len(),
            trim_end_char(s@, c) == trim_end_char(s@.subrange(0, b as int), c),
        decreases b,
    {
        assert(s@.subrange(0, b as int).drop_last() =~= s@.subrange(0, b - 1));
        b = b - 1;
    }
    assert(trim_end_char(s@.subrange(0, b as int), c) == s@.subrange(0, b as int)) by {
        if b > 0 {
            assert(s@.subrange(0, b as int).last() == s@[b - 1]);
        }
    }
    assert(s@.subrange(0, s@.len() as int) =~= s@);
    copy_range(s, 0, b)
}

/// Splitting on whitespace, as `str::split_whitespace`: the maximal runs of
/// non-whitespace characters of `s`, in order, where `cur` is the run that
/// has been read so far.
pub open spec fn split_ws(s: Seq<char>, cur: Seq<char>) -> Seq<Seq<char>>
    decreases s.len(),
{
    if s.len() == 0 {
        if cur.len() == 0 {
            seq![]
        } else {
            seq![cur]
        }
    } else if is_white_space(s[0]) {
        if cur.len() == 0 {
            split_ws(s.drop_first(), seq![])
        } else {
            seq![cur] + split_ws(s.drop_first(), seq![])
        }
    } else {
        split_ws(s.drop_first(), cur.push(s[0]))
    }
}

/// The whitespace-separated words of `s`, in order.
pub open spec fn whitespace_tokens(s: Seq<char>) -> Seq<Seq<char>> {
    split_ws(s, seq![])
}

/// A word that begins with `prefix` and contains `infix`.
pub open spec fn wanted(t: Seq<char>, prefix: Seq<char>, infix: Seq<char>) -> bool {
    has_prefix(t, prefix) && contains(t, infix)
}

/// The first word of `ts` that begins with `prefix` and contains `infix`.
pub open spec fn first_wanted(ts: Seq<Seq<char>>, prefix: Seq<char>, infix: Seq<char>) -> Option<
    Seq<char>,
>
    decreases ts.len(),
{
    if ts.len() == 0 {
        None
    } else if wanted(ts[0], prefix, infix) {
        Some(ts[0])
    } else {
        first_wanted(ts.drop_first(), prefix, infix)
    }
}

proof fn lemma_first_wanted_cons(
    t: Seq<char>,
    rest: Seq<Seq<char>>,
    prefix: Seq<char>,
    infix: Seq<char>,
)
    ensures
        first_wanted(seq![t] + rest, prefix, infix) == if wanted(t, prefix, infix) {
            Some(t)
        } else {
            first_wanted(rest, prefix, infix)
        },
{
    let ts = seq![t] + rest;
    assert(ts[0] == t);
    assert(ts.drop_first() =~= rest);
}

/// The word that [`first_wanted`] finds is wanted and is one of the words.
pub proof fn lemma_first_wanted_found(ts: Seq<Seq<char>>, prefix: Seq<char>, infix: Seq<char>)
    ensures
        first_wanted(ts, prefix, infix) matches Some(t) ==> wanted(t, prefix, infix)
            && ts.contains(t),
    decreases ts.len(),
{
    if ts.len() > 0 && !wanted(ts[0], prefix, infix) {
        lemma_first_wanted_found(ts.drop_first(), prefix, infix);
        if let Some(t) = first_wanted(ts, prefix, infix) {
            let k = choose|k: int| 0 <= k < ts.drop_first().len() && ts.drop_first()[k] == t;
            assert(ts[k + 1] == t);
        }
    } else if ts.len() > 0 {
        assert(ts[0] == ts[0]);
    }
}

/// Text without whitespace.
pub open spec fn no_white_space(s: Seq<char>) -> bool {
    forall|i: int| 0 <= i < s.len() ==> !is_white_space(#[trigger] s[i])
}

/// The words of a split are non-empty and hold no whitespace.
pub proof fn lemma_split_ws_words(s: Seq<char>, cur: Seq<char>)
    requires
        no_white_space(cur),
    ensures
        forall|k: int|
            0 <= k < split_ws(s, cur).len() ==> (#[trigger] split_ws(s, cur)[k]).len() > 0
                && no_white_space(split_ws(s, cur)[k]),
    decreases s.len(),
{
    if s.len() == 0 {
        if cur.len() > 0 {
            assert(split_ws(s, cur) == seq![cur]);
        }
    } else if is_white_space(s[0]) {
        lemma_split_ws_words(s.drop_first(), seq![]);
        if cur.len() > 0 {
            let rest = split_ws(s.drop_first(), seq![]);
            assert forall|k: int| 0 <= k < split_ws(s, cur).len() implies (#[trigger] split_ws(
                s,
                cur,
            )[k]).len() > 0 && no_white_space(split_ws(s, cur)[k]) by {
                if k > 0 {
                    assert(split_ws(s, cur)[k] == rest[k - 1]);
                } else {
                    assert(split_ws(s, cur)[k] == cur);
                }
            }
        } else {
            assert(split_ws(s, cur) == split_ws(s.drop_first(), seq![]));
        }
    } else {
        assert(no_white_space(cur.push(s[0]))) by {
            assert forall|i: int| 0 <= i < cur.push(s[0]).len() implies !is_white_space(
                #[trigger] cur.push(s[0])[i],
            ) by {
                if i < cur.len() {
                    assert(cur.push(s[0])[i] == cur[i]);
                }
            }
        }
        lemma_split_ws_words(s.drop_first(), cur.push(s[0]));
        assert(split_ws(s, cur) == split_ws(s.drop_first(), cur.push(s[0])));
    }
}

/// Removing trailing `c`s keeps a prefix of `s` that does not end in `c`,
/// and every removed character is `c`.
pub proof fn lemma_trim_end_char(s: Seq<char>, c: char)
    ensures
        exists|k: int|
            0 <= k <= s.len() && trim_end_char(s, c) == s.subrange(0, k) && (k > 0 ==> s[k - 1]
                != c) && forall|j: int| k <= j < s.len() ==> #[trigger] s[j] == c,
    decreases s.len(),
{
    if s.len() > 0 && s.last() == c {
        lemma_trim_end_char(s.drop_last(), c);
        let k = choose|k: int|
            0 <= k <= s.drop_last().len() && trim_end_char(s.drop_last(), c)
                == s.drop_last().subrange(0, k) && (k > 0 ==> s.drop_last()[k - 1] != c)
                && forall|j: int| k <= j < s.drop_last().len() ==> #[trigger] s.drop_last()[j]
                == c;
        assert(s.drop_last().subrange(0, k) =~= s.subrange(0, k));
        assert forall|j: int| k <= j < s.len() implies #[trigger] s[j] == c by {
            if j < s.len() - 1 {
                assert(s.drop_last()[j] == s[j]);
            }
        }
    } else {
        assert(s.subrange(0, s.len() as int) =~= s);
    }
}

/// The first whitespace-separated word of `text` that begins with `prefix`
/// and contains `infix`.
pub fn first_token(text: &[char], prefix: &[char], infix: &[char]) -> (r: Option<Vec<char>>)
    ensures
        match r {
            Some(t) => first_wanted(whitespace_tokens(text@), prefix@, infix@) == Some(t@),
            None => first_wanted(whitespace_tokens(text@), prefix@, infix@) is None,
        },
{
    let mut cur: Vec<char> = Vec::new();
    let mut i: usize = 0;
    assert(text@.skip(0) =~= text@);
    while i < text.len()
        invariant
            i <= text@.len(),
            first_wanted(whitespace_tokens(text@), prefix@, infix@) == first_wanted(
                split_ws(text@.skip(i as int), cur@),
                prefix@,
                infix@,
            ),
        decreases text@.len() - i,
    {
        let c = text[i];
        let ghost rest = text@.skip(i as int);
        assert(rest[0] == c);
        assert(rest.drop_first() =~= text@.skip(i + 1));
        if is_whitespace_char(c) {
            if cur.len() > 0 {
                proof {
                    lemma_first_wanted_cons(
                        cur@,
                        split_ws(text@.skip(i + 1), seq![]),
                        prefix@,
                        infix@,
                    );
                }
                assert(split_ws(rest, cur@) == seq![cur@] + split_ws(text@.skip(i + 1), seq![]));
                if starts_with_chars(&cur, prefix) && contains_chars(&cur, infix) {
                    return Some(cur);
                }
                cur = Vec::new();
            } else {
                assert(cur@ =~= Seq::<char>::empty());
                assert(split_ws(rest, cur@) == split_ws(text@.skip(i + 1), seq![]));
            }
        } else {
            let ghost old_cur = cur@;
            cur.push(c);
            assert(split_ws(rest, old_cur) == split_ws(text@.skip(i + 1), cur@));
        }
        i = i + 1;
    }
    assert(text@.skip(i as int).len() == 0);
    if cur.len() > 0 {
        proof {
            lemma_first_wanted_cons(cur@, seq![], prefix@, infix@);
            assert(seq![cur@] + Seq::<Seq<char>>::empty() =~= seq![cur@]);
        }
        if starts_with_chars(&cur, prefix) && contains_chars(&cur, infix) {
            return Some(cur);
        }
    }
    None
}

/// What `str::to_lowercase` gives for `s` (the Unicode lowercase mapping).
pub uninterp spec fn lowercase(s: Seq<char>) -> Seq<char>;

/// ASCII lower-casing of one character: `A`-`Z` become `a`-`z`, every other
/// character stays.
pub open spec fn ascii_lower(c: char) -> char {
    if 'A' <= c <= 'Z' {
        ((c as u32) + 32) as char
    } else {
        c
    }
}

/// `str::to_lowercase`: claimed to be a function of the text it is given
/// (the name `lowercase`), and on ASCII text to lower-case `A`-`Z` and keep
/// every other character. What the Unicode lowercase mapping does to other
/// characters is not stated.
#[verifier::external_body]
pub(crate) fn to_lowercase(s: &str) -> (r: String)
    ensures
        r@ == lowercase(s@),
        vstd::utf8::is_ascii_chars(s@) ==> r@ == s@.map_values(|c: char| ascii_lower(c)),
{
    s.to_lowercase()
}

/// What `String::from_utf8_lossy` gives for `bytes`.
pub uninterp spec fn utf8_lossy(bytes: Seq<u8>) -> Seq<char>;

/// `String::from_utf8_lossy`: claimed to decode `bytes` as UTF-8, and to
/// return exactly the decoded text when `bytes` is valid UTF-8. How invalid
/// sequences are replaced is left to the name `utf8_lossy`.
#[verifier::external_body]
pub(crate) fn from_utf8_lossy(bytes: &[u8]) -> (s: String)
    ensures
        s@ == utf8_lossy(bytes@),
        vstd::utf8::valid_utf8(bytes@) ==> s@ == vstd::utf8::decode_utf8(bytes@),
{
    String::from_utf8_lossy(bytes).into_owned()
}

/// The views of a sequence of strings.
pub open spec fn views(v: Seq<String>) -> Seq<Seq<char>> {
    v.map_values(|s: String| s@)
}

/// The view of an optional string.
pub open spec fn opt_view(o: Option<String>) -> Option<Seq<char>> {
    match o {
        Some(s) => Some(s@),
        None => None,
    }
}

} // verus!
