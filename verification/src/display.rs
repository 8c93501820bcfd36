//! How values are shown on the pages: the grid class of a photo by its
//! shape, cleaned-up EXIF text, labels of contact entries and links to
//! social media profiles.

use vstd::prelude::*;
use crate::text::{
    char_vecs, is_whitespace, char_is_whitespace, lowercase, push_str, starts_with, str_starts_with,
    to_chars, to_lowercase,
};
use crate::exif::{contains_seq, str_contains};
use crate::text::{decimal, push_decimal};
use crate::types::{GalleryConfig, MosaicCell, PhotoInfo};

verus! {

/// The grid class of a photo: its width-to-height ratio against the
/// thresholds 2.5, 1.8, 1.3, 1.05, 0.75 and 0.55 (compared exactly), and
/// `square` when a dimension is unknown. A zero height counts as infinitely
/// wide, and a photo with no width or height at all as tall.
pub open spec fn orientation_class(width: Option<u32>, height: Option<u32>) -> Seq<char> {
    match (width, height) {
        (Some(w), Some(h)) => if 2 * w > 5 * h {
            "wide-landscape"@
        } else if 5 * w > 9 * h {
            "landscape"@
        } else if 10 * w > 13 * h {
            "landscape-square"@
        } else if 20 * w > 21 * h {
            "square"@
        } else if 4 * w > 3 * h {
            "portrait-square"@
        } else if 20 * w > 11 * h {
            "portrait"@
        } else {
            "tall-portrait"@
        },
        _ => "square"@,
    }
}

/// The grid class of a photo with the given dimensions.
pub fn orientation_class_from_dimensions(width: Option<u32>, height: Option<u32>) -> (r:
    &'static str)
    ensures
        r@ == orientation_class(width, height),
{
    match (width, height) {
        (Some(w), Some(h)) => {
            let w = w as u64;
            let h = h as u64;
            if 2 * w > 5 * h {
                "wide-landscape"
            } else if 5 * w > 9 * h {
                "landscape"
            } else if 10 * w > 13 * h {
                "landscape-square"
            } else if 20 * w > 21 * h {
                "square"
            } else if 4 * w > 3 * h {
                "portrait-square"
            } else if 20 * w > 11 * h {
                "portrait"
            } else {
                "tall-portrait"
            }
        },
        _ => "square",
    }
}

/// `s` without the leading and trailing occurrences of `c`.
pub open spec fn trim_char(s: Seq<char>, c: char) -> Seq<char>
    decreases s.len(),
{
    if s.len() > 0 && s[0] == c {
        trim_char(s.drop_first(), c)
    } else if s.len() > 0 && s.last() == c {
        trim_char(s.drop_last(), c)
    } else {
        s
    }
}

/// The characters `v[from..to]` as a string.
fn chars_to_string(v: &Vec<char>, from: usize, to: usize) -> (r: String)
    requires
        from <= to <= v@.len(),
    ensures
        r@ == v@.subrange(from as int, to as int),
{
    let mut r = String::new();
    let mut i: usize = from;
    while i < to
        invariant
            from <= i <= to <= v@.len(),
            r@ == v@.subrange(from as int, i as int),
        decreases to - i,
    {
        r.push(v[i]);
        assert(r@ =~= v@.subrange(from as int, i + 1));
        i = i + 1;
    }
    r
}

/// `s` without surrounding double quotes (any number of them at each end).
pub fn strip_quotes(s: &str) -> (r: String)
    ensures
        r@ == trim_char(s@, '"'),
{
    let v = to_chars(s);
    let mut from: usize = 0;
    let mut to: usize = v.len();
    assert(v@.subrange(0, v@.len() as int) =~= s@);
    while from < to && (v[from] == '"' || v[to - 1] == '"')
        invariant
            v@ == s@,
            from <= to <= v@.len(),
            trim_char(v@.subrange(from as int, to as int), '"') == trim_char(s@, '"'),
        decreases to - from,
    {
        let ghost cur = v@.subrange(from as int, to as int);
        if v[from] == '"' {
            assert(cur.drop_first() =~= v@.subrange(from + 1, to as int));
            from = from + 1;
        } else {
            assert(cur.drop_last() =~= v@.subrange(from as int, to - 1));
            to = to - 1;
        }
    }
    assert(s@.subrange(0, s@.len() as int) =~= s@);
    chars_to_string(&v, from, to)
}

/// `s` with every `f/` written `ƒ/`, left to right.
pub open spec fn hooked_aperture(s: Seq<char>) -> Seq<char>
    decreases s.len(),
{
    if s.len() >= 2 && s[0] == 'f' && s[1] == '/' {
        seq!['ƒ', '/'] + hooked_aperture(s.skip(2))
    } else if s.len() > 0 {
        seq![s[0]] + hooked_aperture(s.skip(1))
    } else {
        s
    }
}

/// An aperture such as `f/2.8` written with the hooked f: `ƒ/2.8`.
pub fn format_aperture(aperture: &str) -> (r: String)
    ensures
        r@ == hooked_aperture(aperture@),
{
    let v = to_chars(aperture);
    let mut r = String::new();
    let mut i: usize = 0;
    assert(v@.skip(0) =~= v@);
    assert(r@ + hooked_aperture(aperture@) =~= hooked_aperture(aperture@));
    while i < v.len()
        invariant
            v@ == aperture@,
            i <= v@.len(),
            r@ + hooked_aperture(v@.skip(i as int)) == hooked_aperture(aperture@),
        decreases v@.len() - i,
    {
        let ghost rest = v@.skip(i as int);
        if i + 1 < v.len() && v[i] == 'f' && v[i + 1] == '/' {
            r.push('ƒ');
            r.push('/');
            assert(rest.skip(2) =~= v@.skip(i + 2));
            assert(r@ + hooked_aperture(v@.skip(i + 2)) =~= hooked_aperture(aperture@));
            i = i + 2;
        } else {
            r.push(v[i]);
            assert(rest.skip(1) =~= v@.skip(i + 1));
            assert(r@ + hooked_aperture(v@.skip(i + 1)) =~= hooked_aperture(aperture@));
            i = i + 1;
        }
    }
    assert(v@.skip(v@.len() as int) =~= Seq::<char>::empty());
    assert(r@ =~= r@ + hooked_aperture(v@.skip(i as int)));
    r
}

/// The words of `s`: the maximal runs of characters that are not
/// whitespace, in order (`str::split_whitespace`).
pub open spec fn words(s: Seq<char>) -> Seq<Seq<char>>
    decreases s.len(),
{
    if s.len() == 0 {
        Seq::empty()
    } else {
        let prev = words(s.drop_last());
        let c = s.last();
        if is_whitespace(c) {
            prev
        } else if s.len() >= 2 && !is_whitespace(s[s.len() - 2]) {
            prev.update(prev.len() - 1, prev.last().push(c))
        } else {
            prev.push(seq![c])
        }
    }
}

/// A string ending in a character that is not whitespace has words, and
/// every word has characters.
proof fn lemma_words(s: Seq<char>)
    ensures
        s.len() > 0 && !is_whitespace(s.last()) ==> words(s).len() > 0,
        forall|k: int| 0 <= k < words(s).len() ==> #[trigger] words(s)[k].len() > 0,
    decreases s.len(),
{
    if s.len() > 0 {
        lemma_words(s.drop_last());
    }
}

/// The words of `s`.
fn split_words(s: &str) -> (r: Vec<Vec<char>>)
    ensures
        char_vecs(r@) == words(s@),
{
    let v = to_chars(s);
    let mut r: Vec<Vec<char>> = Vec::new();
    let mut in_word = false;
    let mut i: usize = 0;
    assert(v@.take(0) =~= Seq::<char>::empty());
    while i < v.len()
        invariant
            v@ == s@,
            i <= v@.len(),
            char_vecs(r@) == words(v@.take(i as int)),
            in_word == (i > 0 && !is_whitespace(v@[i - 1])),
        decreases v@.len() - i,
    {
        let c = v[i];
        let ghost t = v@.take(i + 1);
        proof {
            assert(t.drop_last() =~= v@.take(i as int));
            lemma_words(v@.take(i as int));
        }
        if char_is_whitespace(c) {
            in_word = false;
        } else if in_word {
            let ghost prev = char_vecs(r@);
            let mut last = r.pop().unwrap();
            last.push(c);
            r.push(last);
            assert(t[t.len() - 2] == v@[i - 1]);
            assert(char_vecs(r@) =~= prev.update(prev.len() - 1, prev.last().push(c)));
        } else {
            let ghost prev = char_vecs(r@);
            let mut w: Vec<char> = Vec::new();
            w.push(c);
            r.push(w);
            assert(char_vecs(r@) =~= prev.push(seq![c]));
            in_word = true;
        }
        i = i + 1;
    }
    assert(v@.take(v@.len() as int) =~= v@);
    r
}

/// The pieces joined with single spaces.
pub open spec fn join_spaces(pieces: Seq<Seq<char>>) -> Seq<char>
    decreases pieces.len(),
{
    if pieces.len() == 0 {
        Seq::empty()
    } else if pieces.len() == 1 {
        pieces[0]
    } else {
        join_spaces(pieces.drop_last()) + seq![' '] + pieces.last()
    }
}

/// The views of strings.
pub open spec fn views(s: Seq<String>) -> Seq<Seq<char>> {
    s.map_values(|x: String| x@)
}

/// The strings joined with single spaces.
fn join_with_spaces(pieces: &Vec<String>) -> (r: String)
    ensures
        r@ == join_spaces(views(pieces@)),
{
    let mut out = String::new();
    let mut i: usize = 0;
    assert(views(pieces@).take(0) =~= Seq::<Seq<char>>::empty());
    while i < pieces.len()
        invariant
            i <= pieces@.len(),
            out@ == join_spaces(views(pieces@).take(i as int)),
        decreases pieces@.len() - i,
    {
        if i > 0 {
            out.push(' ');
        }
        push_str(&mut out, pieces[i].as_str());
        proof {
            let t = views(pieces@).take(i + 1);
            assert(t.drop_last() =~= views(pieces@).take(i as int));
            if i == 0 {
                assert(out@ =~= join_spaces(t));
            } else {
                assert(out@ =~= join_spaces(t));
            }
        }
        i = i + 1;
    }
    assert(views(pieces@).take(pieces@.len() as int) =~= views(pieces@));
    out
}

/// What `char::to_uppercase` gives for a character, collected into a string
/// (one or more characters).
pub uninterp spec fn char_uppercase(c: char) -> Seq<char>;

/// `char::to_uppercase`, collected into a string; the result is named
/// `char_uppercase` of the character.
#[verifier::external_body]
fn uppercase_char(c: char) -> (r: String)
    ensures
        r@ == char_uppercase(c),
{
    c.to_uppercase().collect::<String>()
}

/// Whether `char::is_alphabetic` holds of a character (the Unicode
/// `Alphabetic` property).
pub uninterp spec fn alphabetic(c: char) -> bool;

/// `char::is_alphabetic`; the result is named `alphabetic` of the character.
#[verifier::external_body]
fn is_alphabetic(c: char) -> (r: bool)
    ensures
        r == alphabetic(c),
{
    c.is_alphabetic()
}

/// Whether `char::is_uppercase` holds of a character (the Unicode
/// `Uppercase` property).
pub uninterp spec fn uppercase(c: char) -> bool;

/// `char::is_uppercase`; the result is named `uppercase` of the character.
#[verifier::external_body]
fn is_uppercase(c: char) -> (r: bool)
    ensures
        r == uppercase(c),
{
    c.is_uppercase()
}

/// Whether `char::is_numeric` holds of a character (a Unicode numeric
/// general category).
pub uninterp spec fn numeric(c: char) -> bool;

/// `char::is_numeric`; the result is named `numeric` of the character.
#[verifier::external_body]
fn is_numeric(c: char) -> (r: bool)
    ensures
        r == numeric(c),
{
    c.is_numeric()
}

/// A word with its first character upper-cased and the rest as it is.
pub open spec fn capitalized(w: Seq<char>) -> Seq<char> {
    if w.len() == 0 {
        w
    } else {
        char_uppercase(w[0]) + w.skip(1)
    }
}

/// A contact key as a label: underscores become spaces, and each word
/// starts with a capital.
pub open spec fn display_key(key: Seq<char>) -> Seq<char> {
    join_spaces(
        words(crate::text::replace2(key, '_', '_', ' ')).map_values(|w: Seq<char>| capitalized(w)),
    )
}

/// The characters `v[from..]` upper-cased at the first and otherwise kept.
fn capitalize(w: &Vec<char>) -> (r: String)
    ensures
        r@ == capitalized(w@),
{
    if w.len() == 0 {
        return String::new();
    }
    let mut r = uppercase_char(w[0]);
    let rest = chars_to_string(w, 1, w.len());
    push_str(&mut r, rest.as_str());
    assert(w@.subrange(1, w@.len() as int) =~= w@.skip(1));
    r
}

/// A contact key as a label (`instagram_handle` becomes `Instagram Handle`).
pub fn normalize_display_key(key: &str) -> (r: String)
    ensures
        r@ == display_key(key@),
{
    let spaced = crate::text::replace_chars(key, '_', '_', ' ');
    let ws = split_words(spaced.as_str());
    let ghost f = |w: Seq<char>| capitalized(w);
    let mut pieces: Vec<String> = Vec::new();
    let mut i: usize = 0;
    while i < ws.len()
        invariant
            i <= ws@.len(),
            char_vecs(ws@) == words(spaced@),
            f == (|w: Seq<char>| capitalized(w)),
            pieces@.len() == i,
            views(pieces@) == char_vecs(ws@).take(i as int).map_values(f),
        decreases ws@.len() - i,
    {
        let p = capitalize(&ws[i]);
        let ghost before = pieces@;
        pieces.push(p);
        proof {
            assert forall|k: int| 0 <= k < i + 1 implies #[trigger] views(pieces@)[k]
                == char_vecs(ws@).take(i + 1).map_values(f)[k] by {
                if k < i {
                    assert(pieces@[k] == before[k]);
                    assert(views(before)[k] == char_vecs(ws@).take(i as int).map_values(f)[k]);
                }
            }
            assert(views(pieces@) =~= char_vecs(ws@).take(i + 1).map_values(f));
        }
        i = i + 1;
    }
    assert(char_vecs(ws@).take(ws@.len() as int) =~= char_vecs(ws@));
    join_with_spaces(&pieces)
}

/// How many characters of `w` are alphabetic.
pub open spec fn letter_count(w: Seq<char>) -> nat
    decreases w.len(),
{
    if w.len() == 0 {
        0
    } else {
        letter_count(w.drop_last()) + if alphabetic(w.last()) {
            1nat
        } else {
            0nat
        }
    }
}

/// Whether some character of `w` is numeric.
pub open spec fn has_digit(w: Seq<char>) -> bool {
    exists|i: int| 0 <= i < w.len() && numeric(#[trigger] w[i])
}

/// A word of an all-capitals string in title case: acronyms (two to four
/// letters, no digit) and words with a digit stay as they are; other words
/// keep their first character upper-cased and have the rest lower-cased.
pub open spec fn title_word(w: Seq<char>) -> Seq<char> {
    let n = letter_count(w);
    if (2 <= n <= 4 && !has_digit(w)) || has_digit(w) {
        w
    } else if w.len() == 0 {
        w
    } else {
        char_uppercase(w[0]) + lowercase(w.skip(1))
    }
}

/// Whether `s` has a letter and all its letters are capitals.
pub open spec fn all_capitals(s: Seq<char>) -> bool {
    &&& exists|i: int| 0 <= i < s.len() && alphabetic(#[trigger] s[i])
    &&& forall|i: int| 0 <= i < s.len() && alphabetic(#[trigger] s[i]) ==> uppercase(s[i])
}

/// `s` in title case when it is written in capitals only, else `s` as it is.
pub open spec fn title_case_if_uppercase(s: Seq<char>) -> Seq<char> {
    if all_capitals(s) {
        join_spaces(words(s).map_values(|w: Seq<char>| title_word(w)))
    } else {
        s
    }
}

/// Whether `s` has a letter and all its letters are capitals.
fn is_all_capitals(s: &Vec<char>) -> (r: bool)
    ensures
        r == all_capitals(s@),
{
    let mut has_letters = false;
    let mut all_upper = true;
    let mut i: usize = 0;
    while i < s.len()
        invariant
            i <= s@.len(),
            has_letters == exists|k: int| 0 <= k < i && alphabetic(#[trigger] s@[k]),
            all_upper == forall|k: int| 0 <= k < i && alphabetic(#[trigger] s@[k]) ==> uppercase(s@[k]),
        decreases s@.len() - i,
    {
        if is_alphabetic(s[i]) {
            has_letters = true;
            if !is_uppercase(s[i]) {
                all_upper = false;
            }
        }
        i = i + 1;
    }
    has_letters && all_upper
}

/// A word in title case (see `title_word`).
fn title_case_word(w: &Vec<char>) -> (r: String)
    ensures
        r@ == title_word(w@),
{
    let mut letters: usize = 0;
    let mut digit = false;
    let mut i: usize = 0;
    assert(w@.take(0) =~= Seq::<char>::empty());
    while i < w.len()
        invariant
            i <= w@.len(),
            letters == letter_count(w@.take(i as int)),
            letters <= i,
            digit == exists|k: int| 0 <= k < i && numeric(#[trigger] w@[k]),
        decreases w@.len() - i,
    {
        assert(w@.take(i + 1).drop_last() =~= w@.take(i as int));
        if is_alphabetic(w[i]) {
            letters = letters + 1;
        }
        if is_numeric(w[i]) {
            digit = true;
        }
        i = i + 1;
    }
    assert(w@.take(w@.len() as int) =~= w@);
    if (2 <= letters && letters <= 4 && !digit) || digit {
        chars_to_string(w, 0, w.len())
    } else if w.len() == 0 {
        String::new()
    } else {
        let mut r = uppercase_char(w[0]);
        let rest = chars_to_string(w, 1, w.len());
        let lower = to_lowercase(rest.as_str());
        push_str(&mut r, lower.as_str());
        assert(w@.subrange(1, w@.len() as int) =~= w@.skip(1));
        r
    }
}

/// A string written in capitals only, in title case with acronyms and words
/// with digits kept; any other string as it is.
pub fn to_title_case_if_uppercase(s: &str) -> (r: String)
    ensures
        r@ == title_case_if_uppercase(s@),
{
    let v = to_chars(s);
    if !is_all_capitals(&v) {
        return s.to_owned();
    }
    let ws = split_words(s);
    let ghost f = |w: Seq<char>| title_word(w);
    let mut pieces: Vec<String> = Vec::new();
    let mut i: usize = 0;
    while i < ws.len()
        invariant
            i <= ws@.len(),
            char_vecs(ws@) == words(s@),
            f == (|w: Seq<char>| title_word(w)),
            pieces@.len() == i,
            views(pieces@) == char_vecs(ws@).take(i as int).map_values(f),
        decreases ws@.len() - i,
    {
        let p = title_case_word(&ws[i]);
        let ghost before = pieces@;
        pieces.push(p);
        proof {
            assert forall|k: int| 0 <= k < i + 1 implies #[trigger] views(pieces@)[k]
                == char_vecs(ws@).take(i + 1).map_values(f)[k] by {
                if k < i {
                    assert(pieces@[k] == before[k]);
                    assert(views(before)[k] == char_vecs(ws@).take(i as int).map_values(f)[k]);
                }
            }
            assert(views(pieces@) =~= char_vecs(ws@).take(i + 1).map_values(f));
        }
        i = i + 1;
    }
    assert(char_vecs(ws@).take(ws@.len() as int) =~= char_vecs(ws@));
    join_with_spaces(&pieces)
}


/// `s` without its leading occurrences of `c`.
pub open spec fn trim_start_char(s: Seq<char>, c: char) -> Seq<char>
    decreases s.len(),
{
    if s.len() > 0 && s[0] == c {
        trim_start_char(s.drop_first(), c)
    } else {
        s
    }
}

/// The `n`-th piece of `s` split at `sep`, if there are that many.
pub open spec fn nth_piece(s: Seq<char>, sep: char, n: int) -> Option<Seq<char>> {
    let pieces = crate::text::split_on(s, sep);
    if 0 <= n < pieces.len() {
        Some(pieces[n])
    } else {
        None
    }
}

/// The profile link and its text for a contact entry given as a plain
/// string: for an Instagram key, a handle (with or without `@`) links to
/// instagram.com and is shown as written, while a URL gets no link; for a
/// GitHub key, a github.com profile URL or a user name (without any leading
/// `@`) links to github.com and shows the user name; other keys get none.
pub open spec fn social_link(key: Seq<char>, value: Seq<char>) -> Option<(Seq<char>, Seq<char>)> {
    let k = lowercase(key);
    if contains_seq(k, "instagram"@) {
        if value.len() > 0 && value[0] == '@' {
            Some(("https://instagram.com/"@ + value.skip(1), value))
        } else if !starts_with(value, "http"@) {
            Some(("https://instagram.com/"@ + trim_start_char(value, '@'), value))
        } else {
            None
        }
    } else if contains_seq(k, "github"@) {
        if starts_with(value, "https://github.com/"@) || starts_with(value, "http://github.com/"@) {
            match nth_piece(value, '/', 3) {
                Some(u) => if u.len() > 0 {
                    Some(("https://github.com/"@ + u, u))
                } else {
                    None
                },
                None => None,
            }
        } else {
            let u = trim_start_char(value, '@');
            Some(("https://github.com/"@ + u, u))
        }
    } else {
        None
    }
}

/// `s` without its leading occurrences of `c`.
fn trim_start_matches_char(s: &str, c: char) -> (r: String)
    ensures
        r@ == trim_start_char(s@, c),
{
    let v = to_chars(s);
    let mut from: usize = 0;
    assert(v@.skip(0) =~= v@);
    while from < v.len() && v[from] == c
        invariant
            v@ == s@,
            from <= v@.len(),
            trim_start_char(v@.skip(from as int), c) == trim_start_char(s@, c),
        decreases v@.len() - from,
    {
        assert(v@.skip(from as int).drop_first() =~= v@.skip(from + 1));
        from = from + 1;
    }
    let r = chars_to_string(&v, from, v.len());
    assert(v@.subrange(from as int, v@.len() as int) =~= v@.skip(from as int));
    r
}

/// `prefix` followed by `rest`.
fn concat(prefix: &str, rest: &str) -> (r: String)
    ensures
        r@ == prefix@ + rest@,
{
    let mut r = prefix.to_owned();
    push_str(&mut r, rest);
    r
}

/// The profile link and its text for a contact entry given as a plain string
/// (see `social_link`).
pub fn get_social_media_link_from_string(key: &str, value: &str) -> (r: Option<(String, String)>)
    ensures
        match r {
            Some((url, text)) => social_link(key@, value@) == Some((url@, text@)),
            None => social_link(key@, value@) is None,
        },
{
    let key_lower = to_lowercase(key);
    let v = to_chars(value);
    if str_contains(key_lower.as_str(), "instagram") {
        if v.len() > 0 && v[0] == '@' {
            let handle = chars_to_string(&v, 1, v.len());
            assert(v@.subrange(1, v@.len() as int) =~= value@.skip(1));
            Some((concat("https://instagram.com/", handle.as_str()), value.to_owned()))
        } else if !str_starts_with(value, "http") {
            let handle = trim_start_matches_char(value, '@');
            Some((concat("https://instagram.com/", handle.as_str()), value.to_owned()))
        } else {
            None
        }
    } else if str_contains(key_lower.as_str(), "github") {
        if str_starts_with(value, "https://github.com/") || str_starts_with(value, "http://github.com/") {
            let pieces = crate::text::split_chars(&v, '/');
            if pieces.len() > 3 && pieces[3].len() > 0 {
                let user = chars_to_string(&pieces[3], 0, pieces[3].len());
                assert(pieces@[3]@.subrange(0, pieces@[3]@.len() as int) =~= pieces@[3]@);
                assert(char_vecs(pieces@)[3] == pieces@[3]@);
                let url = concat("https://github.com/", user.as_str());
                Some((url, user))
            } else {
                proof {
                    if pieces@.len() > 3 {
                        assert(char_vecs(pieces@)[3] == pieces@[3]@);
                    }
                }
                None
            }
        } else {
            let user = trim_start_matches_char(value, '@');
            let url = concat("https://github.com/", user.as_str());
            Some((url, user))
        }
    } else {
        None
    }
}


/// The photo page's place in the list of all photos: the position of the
/// first photo with slug `slug`, and the positions of the photos before and
/// after it, if any.
pub fn photo_neighbours(photos: &Vec<PhotoInfo>, slug: &str) -> (r: Option<(usize, Option<usize>, Option<usize>)>)
    ensures
        match r {
            None => forall|i: int| 0 <= i < photos@.len() ==> #[trigger] photos@[i].slug@ != slug@,
            Some((idx, prev, next)) => {
                &&& idx < photos@.len()
                &&& photos@[idx as int].slug@ == slug@
                &&& forall|j: int| 0 <= j < idx ==> #[trigger] photos@[j].slug@ != slug@
                &&& prev == (if idx > 0 { Some((idx - 1) as usize) } else { None::<usize> })
                &&& next == (if idx + 1 < photos@.len() { Some((idx + 1) as usize) } else { None::<usize> })
            },
        },
{
    let mut i: usize = 0;
    while i < photos.len()
        invariant
            i <= photos@.len(),
            forall|j: int| 0 <= j < i ==> #[trigger] photos@[j].slug@ != slug@,
        decreases photos@.len() - i,
    {
        if crate::text::str_eq(photos[i].slug.as_str(), slug) {
            let prev = if i > 0 { Some(i - 1) } else { None };
            let next = if i + 1 < photos.len() { Some(i + 1) } else { None };
            return Some((i, prev, next));
        }
        i = i + 1;
    }
    None
}

/// `/gallery/{gallery}/{slug}`, the page of a photo.
pub fn photo_page_url(photo: &PhotoInfo) -> (r: String)
    ensures
        r@ == "/gallery/"@ + photo.gallery_name@ + "/"@ + photo.slug@,
{
    let mut r = "/gallery/".to_owned();
    push_str(&mut r, photo.gallery_name.as_str());
    push_str(&mut r, "/");
    push_str(&mut r, photo.slug.as_str());
    r
}

/// Where "Back to Gallery" leads from a photo of `gallery_name`: the landing
/// page for the home gallery, the gallery's page otherwise.
pub fn back_link(gallery_name: &str) -> (r: String)
    ensures
        r@ == (if gallery_name@ == "home"@ {
            "/"@
        } else {
            "/gallery/"@ + gallery_name@
        }),
{
    if crate::text::str_eq(gallery_name, "home") {
        "/".to_owned()
    } else {
        concat("/gallery/", gallery_name)
    }
}

/// The CSS custom properties of a plain photo grid: columns, row height and
/// gap from the gallery's settings (6, 280px and 8px when unset); nothing
/// without settings.
pub open spec fn grid_style_of(config: Option<GalleryConfig>) -> Seq<char> {
    match config {
        Some(c) => "--grid-columns: "@ + decimal(opt_or(c.columns, 6) as nat) + "; --grid-row-height: "@
            + decimal(opt_or(c.row_height, 280) as nat) + "px; --grid-gap: "@ + decimal(
            opt_or(c.gap, 8) as nat,
        ) + "px;"@,
        None => Seq::empty(),
    }
}

/// The value of an optional setting, or its default.
pub open spec fn opt_or(o: Option<u32>, d: u32) -> u32 {
    match o {
        Some(v) => v,
        None => d,
    }
}

proof fn lemma_contains_middle(a: Seq<char>, b: Seq<char>, c: Seq<char>)
    ensures
        contains_seq(a + b + c, b),
{
    let s = a + b + c;
    assert(s.subrange(a.len() as int, (a.len() + b.len()) as int) =~= b);
}

/// The plain grid follows the gallery's settings: the style names the
/// configured number of columns, row height (in px) and gap (in px), each
/// falling back to 6, 280 and 8 when unset; a gallery without settings gets
/// no style.
pub proof fn lemma_grid_style_follows_settings(c: GalleryConfig)
    ensures
        contains_seq(
            grid_style_of(Some(c)),
            "--grid-columns: "@ + decimal((if c.columns is Some { c.columns->0 } else { 6 }) as nat)
                + ";"@,
        ),
        contains_seq(
            grid_style_of(Some(c)),
            "--grid-row-height: "@ + decimal(
                (if c.row_height is Some { c.row_height->0 } else { 280 }) as nat,
            ) + "px"@,
        ),
        contains_seq(
            grid_style_of(Some(c)),
            "--grid-gap: "@ + decimal((if c.gap is Some { c.gap->0 } else { 8 }) as nat) + "px"@,
        ),
        grid_style_of(None) == Seq::<char>::empty(),
{
    reveal_strlit("--grid-columns: ");
    reveal_strlit("; --grid-row-height: ");
    reveal_strlit("px; --grid-gap: ");
    reveal_strlit("px;");
    reveal_strlit(";");
    reveal_strlit("--grid-row-height: ");
    reveal_strlit("px");
    reveal_strlit("--grid-gap: ");
    let cols = decimal(opt_or(c.columns, 6) as nat);
    let rows = decimal(opt_or(c.row_height, 280) as nat);
    let gap = decimal(opt_or(c.gap, 8) as nat);
    let s = grid_style_of(Some(c));
    let p1 = "--grid-columns: "@ + cols + ";"@;
    let c1 = seq![' '] + "--grid-row-height: "@ + rows + "px; --grid-gap: "@ + gap + "px;"@;
    assert(s =~= Seq::<char>::empty() + p1 + c1);
    lemma_contains_middle(Seq::empty(), p1, c1);
    let p2 = "--grid-row-height: "@ + rows + "px"@;
    let a2 = "--grid-columns: "@ + cols + "; "@;
    let c2 = "; --grid-gap: "@ + gap + "px;"@;
    reveal_strlit("; ");
    reveal_strlit("; --grid-gap: ");
    assert(s =~= a2 + p2 + c2);
    lemma_contains_middle(a2, p2, c2);
    let p3 = "--grid-gap: "@ + gap + "px"@;
    let a3 = "--grid-columns: "@ + cols + "; --grid-row-height: "@ + rows + "px; "@;
    reveal_strlit("px; ");
    assert(s =~= a3 + p3 + ";"@);
    lemma_contains_middle(a3, p3, ";"@);
}

/// The style of a plain photo grid (see `grid_style_of`).
pub fn grid_style(config: Option<GalleryConfig>) -> (r: String)
    ensures
        r@ == grid_style_of(config),
{
    match config {
        Some(c) => {
            let columns = match c.columns {
                Some(v) => v,
                None => 6,
            };
            let row_height = match c.row_height {
                Some(v) => v,
                None => 280,
            };
            let gap = match c.gap {
                Some(v) => v,
                None => 8,
            };
            let mut r = "--grid-columns: ".to_owned();
            push_decimal(&mut r, columns as u64);
            push_str(&mut r, "; --grid-row-height: ");
            push_decimal(&mut r, row_height as u64);
            push_str(&mut r, "px; --grid-gap: ");
            push_decimal(&mut r, gap as u64);
            push_str(&mut r, "px;");
            r
        },
        None => String::new(),
    }
}

/// The largest zoom of the photo viewer: 20 for a photo wider or taller
/// than 8000 pixels, 10 otherwise (and when a dimension is unknown).
pub open spec fn max_zoom_of(width: Option<u32>, height: Option<u32>) -> u32 {
    match (width, height) {
        (Some(w), Some(h)) => if w > 8000 || h > 8000 {
            20
        } else {
            10
        },
        _ => 10,
    }
}

/// The largest zoom of the photo viewer for a photo of the given size.
pub fn max_zoom_for(width: Option<u32>, height: Option<u32>) -> (r: u32)
    ensures
        r == max_zoom_of(width, height),
{
    match (width, height) {
        (Some(w), Some(h)) => if w > 8000 || h > 8000 {
            20
        } else {
            10
        },
        _ => 10,
    }
}

/// `grid-row: {row_start} / {row_end}; grid-column: {col_start} / {col_end};`.
pub open spec fn cell_style_of(cell: MosaicCell) -> Seq<char> {
    "grid-row: "@ + decimal(cell.row_start as nat) + " / "@ + decimal(cell.row_end as nat)
        + "; grid-column: "@ + decimal(cell.col_start as nat) + " / "@ + decimal(
        cell.col_end as nat,
    ) + ";"@
}

/// The CSS placing a photo in its mosaic cell.
pub fn mosaic_cell_style(cell: &MosaicCell) -> (r: String)
    ensures
        r@ == cell_style_of(*cell),
{
    let mut r = "grid-row: ".to_owned();
    push_decimal(&mut r, cell.row_start as u64);
    push_str(&mut r, " / ");
    push_decimal(&mut r, cell.row_end as u64);
    push_str(&mut r, "; grid-column: ");
    push_decimal(&mut r, cell.col_start as u64);
    push_str(&mut r, " / ");
    push_decimal(&mut r, cell.col_end as u64);
    push_str(&mut r, ";");
    r
}

} // verus!
