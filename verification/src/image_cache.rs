//! Naming of the compressed-image cache: the file name a source image is
//! cached under, how a cache file name is read back, and which cache files
//! a change to the image directory makes stale.

use vstd::prelude::*;
use crate::text::{
    all_ascii_digits, ascii_lowercase, chars_ends_with, decimal, digit_char, ends_with,
    lemma_rfind, push_decimal, push_str, replace2, replace_chars, rfind, rfind_chars,
    starts_with, str_eq, str_starts_with, to_ascii_lowercase, to_chars,
};

verus! {

/// `.webp`
pub open spec fn webp_suffix() -> Seq<char> {
    seq!['.', 'w', 'e', 'b', 'p']
}

/// `_l`, the marker before the encoder-version digits.
pub open spec fn version_marker() -> Seq<char> {
    seq!['_', 'l']
}

/// `_q`, the marker before the quality digits.
pub open spec fn quality_marker() -> Seq<char> {
    seq!['_', 'q']
}

/// `_w`, the marker before the width digits.
pub open spec fn width_marker() -> Seq<char> {
    seq!['_', 'w']
}

/// A source path with `/` and `\` turned into `_`, as it appears in cache file names.
pub open spec fn encode_cache_path(p: Seq<char>) -> Seq<char> {
    replace2(p, '/', '\\', '_')
}

/// `{encoded path}_w{width}_q{quality}_l1.webp`.
pub open spec fn cache_file_name(path_without_ext: Seq<char>, width: u32, quality: u8) -> Seq<
    char,
> {
    encode_cache_path(path_without_ext) + width_marker() + decimal(width as nat)
        + quality_marker() + decimal(quality as nat) + version_marker() + seq!['1']
        + webp_suffix()
}

/// `s` without a trailing `{sep}{digits}` segment, found at the last `sep`;
/// `None` when there is no `sep` or what follows it is not a non-empty run of
/// ASCII digits.
pub open spec fn strip_digit_segment(s: Seq<char>, sep: Seq<char>) -> Option<Seq<char>> {
    match rfind(s, sep) {
        None => None,
        Some(pos) => {
            let digits = s.skip(pos + sep.len());
            if digits.len() > 0 && all_ascii_digits(digits) {
                Some(s.take(pos))
            } else {
                None
            }
        },
    }
}

/// The source prefix a cache file name encodes, or `None` for a name that is
/// not of the form `{prefix}_w{digits}_q{digits}_l{digits}.webp` with a
/// non-empty prefix.
pub open spec fn cache_prefix_of(name: Seq<char>) -> Option<Seq<char>> {
    if !ends_with(name, webp_suffix()) {
        None
    } else {
        let s = name.take(name.len() - 5);
        match strip_digit_segment(s, version_marker()) {
            None => None,
            Some(h1) => match strip_digit_segment(h1, quality_marker()) {
                None => None,
                Some(h2) => match strip_digit_segment(h2, width_marker()) {
                    None => None,
                    Some(prefix) => if prefix.len() > 0 {
                        Some(prefix)
                    } else {
                        None
                    },
                },
            },
        }
    }
}

/// The image extensions the gallery recognises (lower case).
pub open spec fn is_image_ext(e: Seq<char>) -> bool {
    ||| e == seq!['j', 'p', 'g']
    ||| e == seq!['j', 'p', 'e', 'g']
    ||| e == seq!['p', 'n', 'g']
    ||| e == seq!['w', 'e', 'b', 'p']
    ||| e == seq!['g', 'i', 'f']
    ||| e == seq!['j', 'x', 'l']
    ||| e == seq!['a', 'v', 'i', 'f']
}

/// The index of the last `c` in `s`.
pub open spec fn last_index(s: Seq<char>, c: char) -> Option<int>
    decreases s.len(),
{
    if s.len() == 0 {
        None
    } else if s.last() == c {
        Some(s.len() - 1)
    } else {
        last_index(s.drop_last(), c)
    }
}

/// Where the final component of the path `p` starts.
pub open spec fn file_name_start(p: Seq<char>) -> int {
    match last_index(p, '/') {
        Some(i) => i + 1,
        None => 0,
    }
}

/// The index in `p` of the dot before its extension, as `Path::extension` finds it:
/// the last dot of the final component, unless that dot begins the component or
/// the component is `..`.
pub open spec fn extension_dot(p: Seq<char>) -> Option<int> {
    let start = file_name_start(p);
    let name = p.skip(start);
    match last_index(name, '.') {
        Some(d) => if d > 0 && name != seq!['.', '.'] {
            Some(start + d)
        } else {
            None
        },
        None => None,
    }
}

/// `Path::extension` of the path `p`.
pub open spec fn path_extension(p: Seq<char>) -> Option<Seq<char>> {
    match extension_dot(p) {
        Some(d) => Some(p.skip(d + 1)),
        None => None,
    }
}

/// `Path::with_extension("")` of the path `p`.
pub open spec fn path_without_extension(p: Seq<char>) -> Seq<char> {
    match extension_dot(p) {
        Some(d) => p.take(d),
        None => p,
    }
}

/// `p` cut at its last dot, as the cache prewarm strips a source path.
pub open spec fn strip_last_dot(p: Seq<char>) -> Seq<char> {
    match last_index(p, '.') {
        Some(d) => p.take(d),
        None => p,
    }
}

/// The cache prefix that a source image at the relative path `rel` owns, or
/// `None` when `rel` is not an image or encodes to nothing.
pub open spec fn source_cache_prefix(rel: Seq<char>) -> Option<Seq<char>> {
    match path_extension(rel) {
        None => None,
        Some(e) => if !is_image_ext(ascii_lowercase(e)) {
            None
        } else {
            let enc = encode_cache_path(path_without_extension(rel));
            if enc.len() > 0 {
                Some(enc)
            } else {
                None
            }
        },
    }
}

/// The start of the cache file names that a change at the relative path `rel`
/// makes stale: `{prefix}_w` for an image, `{prefix}_` for anything else (a
/// folder or a sibling file, which may stand for many images).
pub open spec fn cache_needle(rel: Seq<char>) -> Option<Seq<char>> {
    let no_ext = path_without_extension(rel);
    if no_ext.len() == 0 {
        None
    } else {
        let is_image = match path_extension(rel) {
            Some(e) => is_image_ext(ascii_lowercase(e)),
            None => false,
        };
        Some(
            encode_cache_path(no_ext) + if is_image {
                width_marker()
            } else {
                seq!['_']
            },
        )
    }
}

/// Whether `set` holds a string with the characters `s`.
pub open spec fn contains_str(set: Seq<String>, s: Seq<char>) -> bool {
    exists|i: int| 0 <= i < set.len() && #[trigger] set[i]@ == s
}

/// What the cache sweep makes of one file in the cache directory.
#[derive(Debug, Clone, Copy, PartialEq, Eq)]
pub enum CacheEntryStatus {
    /// The name is not a cache file name; the file is left alone.
    Unrecognised,
    /// A cache file whose source image no longer exists.
    Orphaned,
    /// A cache file whose source image exists.
    Current,
}

/// The cache file name for a source path without extension, width and quality.
pub fn cache_filename(path_without_ext: &str, width: u32, quality: u8) -> (r: String)
    ensures
        r@ == cache_file_name(path_without_ext@, width, quality),
{
    let mut r = replace_chars(path_without_ext, '/', '\\', '_');
    push_str(&mut r, "_w");
    push_decimal(&mut r, width as u64);
    push_str(&mut r, "_q");
    push_decimal(&mut r, quality as u64);
    push_str(&mut r, "_l1.webp");
    proof {
        reveal_strlit("_w");
        reveal_strlit("_q");
        reveal_strlit("_l1.webp");
        assert(r@ =~= cache_file_name(path_without_ext@, width, quality));
    }
    r
}

fn all_digits_from(v: &Vec<char>, from: usize) -> (r: bool)
    requires
        from <= v@.len(),
    ensures
        r == all_ascii_digits(v@.skip(from as int)),
{
    let mut i = from;
    while i < v.len()
        invariant
            from <= i <= v@.len(),
            all_ascii_digits(v@.subrange(from as int, i as int)),
        decreases v@.len() - i,
    {
        if !('0' <= v[i] && v[i] <= '9') {
            assert(v@.skip(from as int)[i - from] == v@[i as int]);
            return false;
        }
        i = i + 1;
        assert(forall|k: int|
            0 <= k < i - from ==> #[trigger] v@.subrange(from as int, i as int)[k] == v@[from
                + k]);
    }
    assert(v@.subrange(from as int, i as int) =~= v@.skip(from as int));
    true
}

/// Strips a trailing `{sep}{digits}` segment (such as `_l1`, `_q80`, `_w2400`)
/// from `s`; `None` when the tail does not match.
pub fn strip_underscore_digit_segment<'a>(s: &'a str, sep: &str) -> (r: Option<&'a str>)
    ensures
        r matches Some(h) ==> strip_digit_segment(s@, sep@) == Some(h@),
        r is None ==> strip_digit_segment(s@, sep@) is None,
{
    let v = to_chars(s);
    let p = to_chars(sep);
    assert(v@.subrange(0, v@.len() as int) =~= v@);
    let pos = match rfind_chars(&v, v.len(), &p) {
        Some(pos) => pos,
        None => return None,
    };
    proof {
        lemma_rfind(s@, sep@);
    }
    let start = pos + p.len();
    if start >= v.len() {
        return None;
    }
    if !all_digits_from(&v, start) {
        return None;
    }
    Some(s.substring_char(0, pos))
}

/// The source prefix encoded in a cache file name
/// (`{prefix}_w{W}_q{Q}_l{V}.webp`), read from the right so that a prefix may
/// itself hold underscores or `_w`.
pub fn cache_file_prefix(filename: &str) -> (r: Option<&str>)
    ensures
        r matches Some(p) ==> cache_prefix_of(filename@) == Some(p@),
        r is None ==> cache_prefix_of(filename@) is None,
{
    let v = to_chars(filename);
    let suffix = to_chars(".webp");
    proof {
        reveal_strlit(".webp");
        reveal_strlit("_l");
        reveal_strlit("_q");
        reveal_strlit("_w");
        assert(".webp"@ =~= webp_suffix());
        assert("_l"@ =~= version_marker());
        assert("_q"@ =~= quality_marker());
        assert("_w"@ =~= width_marker());
        assert(v@.subrange(0, v@.len() as int) =~= v@);
    }
    if !chars_ends_with(&v, v.len(), &suffix) {
        return None;
    }
    let stripped = filename.substring_char(0, v.len() - 5);
    assert(stripped@ =~= filename@.take(filename@.len() - 5));
    let head = match strip_underscore_digit_segment(stripped, "_l") {
        Some(h) => h,
        None => return None,
    };
    let head = match strip_underscore_digit_segment(head, "_q") {
        Some(h) => h,
        None => return None,
    };
    let prefix = match strip_underscore_digit_segment(head, "_w") {
        Some(h) => h,
        None => return None,
    };
    if prefix.unicode_len() == 0 {
        None
    } else {
        Some(prefix)
    }
}


/// The decimal digits of a number are a non-empty run of ASCII digits.
pub proof fn lemma_decimal_digits(n: nat)
    ensures
        decimal(n).len() > 0,
        all_ascii_digits(decimal(n)),
    decreases n,
{
    if n >= 10 {
        lemma_decimal_digits(n / 10);
        let d = (n % 10) as int;
        assert('0' <= digit_char(d) && digit_char(d) <= '9');
        assert(forall|k: int|
            0 <= k < decimal(n).len() - 1 ==> #[trigger] decimal(n)[k] == decimal(n / 10)[k]);
    } else {
        let d = n as int;
        assert('0' <= digit_char(d) && digit_char(d) <= '9');
    }
}

proof fn lemma_rfind_before_digits(a: Seq<char>, sep: Seq<char>, d: Seq<char>)
    requires
        sep.len() == 2,
        sep[0] == '_',
        sep[1] != '_',
        all_ascii_digits(d),
    ensures
        rfind(a + sep + d, sep) == Some(a.len() as int),
{
    let s = a + sep + d;
    lemma_rfind(s, sep);
    assert(s.subrange(a.len() as int, a.len() + 2int) =~= sep);
    match rfind(s, sep) {
        None => {
            assert(s.subrange(a.len() as int, a.len() + 2int) != sep);
        },
        Some(i) => {
            if i < a.len() {
                assert(s.subrange(a.len() as int, a.len() + 2int) != sep);
            } else if i > a.len() {
                assert(s.subrange(i, i + 2)[0] == s[i]);
                if i == a.len() + 1 {
                    assert(s[i] == sep[1]);
                } else {
                    assert(s[i] == d[i - a.len() - 2]);
                }
            }
        },
    }
}

proof fn lemma_strip_before_digits(a: Seq<char>, sep: Seq<char>, d: Seq<char>)
    requires
        sep.len() == 2,
        sep[0] == '_',
        sep[1] != '_',
        d.len() > 0,
        all_ascii_digits(d),
    ensures
        strip_digit_segment(a + sep + d, sep) == Some(a),
{
    lemma_rfind_before_digits(a, sep, d);
    let s = a + sep + d;
    assert(s.skip(a.len() + 2int) =~= d);
    assert(s.take(a.len() as int) =~= a);
}

/// A cache file name `{p}_w{w}_q{q}_l{v}.webp`, with `w`, `q` and `v` runs
/// of ASCII digits, gives back its prefix `p` whenever `p` is not empty,
/// even when `p` itself holds `_`, `_w` or `_q`.
pub proof fn lemma_cache_prefix_roundtrip(p: Seq<char>, w: Seq<char>, q: Seq<char>, v: Seq<char>)
    requires
        p.len() > 0,
        w.len() > 0,
        q.len() > 0,
        v.len() > 0,
        all_ascii_digits(w),
        all_ascii_digits(q),
        all_ascii_digits(v),
    ensures
        cache_prefix_of(p + width_marker() + w + quality_marker() + q + version_marker() + v
            + webp_suffix()) == Some(p),
{
    let a2 = p + width_marker() + w;
    let a1 = a2 + quality_marker() + q;
    let body = a1 + version_marker() + v;
    let name = p + width_marker() + w + quality_marker() + q + version_marker() + v + webp_suffix();
    assert(name =~= body + webp_suffix());
    assert(name.subrange(name.len() - 5, name.len() as int) =~= webp_suffix());
    assert(name.take(name.len() - 5) =~= body);
    lemma_strip_before_digits(a1, version_marker(), v);
    lemma_strip_before_digits(a2, quality_marker(), q);
    lemma_strip_before_digits(p, width_marker(), w);
}

/// Reading back the name that a source path is cached under gives the path's
/// encoding, whenever that encoding is not empty: the cache sweep recognises
/// every file that the image endpoint writes.
pub proof fn lemma_cache_name_roundtrip(path_without_ext: Seq<char>, width: u32, quality: u8)
    ensures
        cache_prefix_of(cache_file_name(path_without_ext, width, quality)) == if encode_cache_path(
            path_without_ext,
        ).len() > 0 {
            Some(encode_cache_path(path_without_ext))
        } else {
            None
        },
{
    let enc = encode_cache_path(path_without_ext);
    let wd = decimal(width as nat);
    let qd = decimal(quality as nat);
    let name = cache_file_name(path_without_ext, width, quality);
    lemma_decimal_digits(width as nat);
    lemma_decimal_digits(quality as nat);
    let a2 = enc + width_marker() + wd;
    let a1 = a2 + quality_marker() + qd;
    let body = a1 + version_marker() + seq!['1'];
    assert(name =~= body + webp_suffix());
    assert(name.subrange(name.len() - 5, name.len() as int) =~= webp_suffix());
    assert(name.take(name.len() - 5) =~= body);
    assert(all_ascii_digits(seq!['1']));
    lemma_strip_before_digits(a1, version_marker(), seq!['1']);
    lemma_strip_before_digits(a2, quality_marker(), qd);
    lemma_strip_before_digits(enc, width_marker(), wd);
}


/// The index of the last `c` in `s`.
pub fn last_index_of(s: &str, c: char) -> (r: Option<usize>)
    ensures
        r matches Some(i) ==> last_index(s@, c) == Some(i as int),
        r is None ==> last_index(s@, c) is None,
{
    let v = to_chars(s);
    let mut i: usize = v.len();
    assert(s@.subrange(0, i as int) =~= s@);
    while i > 0 && v[i - 1] != c
        invariant
            v@ == s@,
            i <= v@.len(),
            last_index(s@, c) == last_index(s@.subrange(0, i as int), c),
        decreases i,
    {
        assert(s@.subrange(0, i as int).drop_last() =~= s@.subrange(0, i - 1));
        i = i - 1;
    }
    proof {
        assert(s@.subrange(0, v@.len() as int) =~= s@);
    }
    if i == 0 {
        None
    } else {
        Some(i - 1)
    }
}

/// The index of the dot before the extension of the path `p` (see `extension_dot`).
pub fn extension_dot_of(p: &str) -> (r: Option<usize>)
    ensures
        r matches Some(d) ==> extension_dot(p@) == Some(d as int),
        r is None ==> extension_dot(p@) is None,
{
    proof {
        assert(p@.subrange(0, p@.len() as int) =~= p@);
    }
    let n = p.unicode_len();
    let start: usize = match last_index_of(p, '/') {
        Some(i) => {
            proof {
                lemma_last_index_bound(p@, '/');
            }
            i + 1
        },
        None => 0,
    };
    let name = p.substring_char(start, n);
    assert(name@ =~= p@.skip(start as int));
    let d = match last_index_of(name, '.') {
        Some(d) => d,
        None => return None,
    };
    proof {
        reveal_strlit("..");
        assert(".."@ =~= seq!['.', '.']);
    }
    if d > 0 && !str_eq(name, "..") {
        proof {
            lemma_last_index_bound(name@, '.');
        }
        Some(start + d)
    } else {
        None
    }
}

/// `last_index` answers with an index inside the sequence that holds `c`.
pub proof fn lemma_last_index_bound(s: Seq<char>, c: char)
    ensures
        last_index(s, c) matches Some(i) ==> 0 <= i < s.len() && s[i] == c,
        last_index(s, c) matches Some(i) ==> forall|j: int| i < j < s.len() ==> s[j] != c,
        last_index(s, c) is None ==> forall|j: int| 0 <= j < s.len() ==> s[j] != c,
    decreases s.len(),
{
    if s.len() > 0 && s.last() != c {
        lemma_last_index_bound(s.drop_last(), c);
        assert(forall|j: int| 0 <= j < s.len() - 1 ==> s.drop_last()[j] == s[j]);
    }
}

/// `Path::extension` of the path `p`.
pub fn extension_of(p: &str) -> (r: Option<&str>)
    ensures
        r matches Some(e) ==> path_extension(p@) == Some(e@),
        r is None ==> path_extension(p@) is None,
{
    match extension_dot_of(p) {
        Some(d) => {
            proof {
                lemma_extension_dot_bound(p@);
            }
            let n = p.unicode_len();
            let e = p.substring_char(d + 1, n);
            assert(e@ =~= p@.skip(d + 1));
            Some(e)
        },
        None => None,
    }
}

/// The extension dot lies inside the path, after its last `/`.
pub proof fn lemma_extension_dot_bound(p: Seq<char>)
    ensures
        extension_dot(p) matches Some(d) ==> 0 < d < p.len() && p[d] == '.',
        extension_dot(p) matches Some(d) ==> forall|j: int| d < j < p.len() ==> p[j] != '/'
            && p[j] != '.',
        extension_dot(p) matches Some(d) ==> last_index(p, '.') == Some(d),
{
    lemma_last_index_bound(p, '/');
    let start = file_name_start(p);
    let name = p.skip(start);
    lemma_last_index_bound(name, '.');
    if let Some(d) = extension_dot(p) {
        let k = d - start;
        assert(name[k] == p[d]);
        assert forall|j: int| d < j < p.len() implies p[j] != '/' && p[j] != '.' by {
            assert(name[j - start] == p[j]);
        }
        lemma_last_index_is(p, '.', d);
    }
}

proof fn lemma_last_index_is(s: Seq<char>, c: char, i: int)
    requires
        0 <= i < s.len(),
        s[i] == c,
        forall|j: int| i < j < s.len() ==> s[j] != c,
    ensures
        last_index(s, c) == Some(i),
    decreases s.len(),
{
    if s.last() != c {
        assert forall|j: int| i < j < s.len() - 1 implies s.drop_last()[j] != c by {
            assert(s.drop_last()[j] == s[j]);
        }
        lemma_last_index_is(s.drop_last(), c, i);
    }
}

/// `Path::with_extension("")` of the path `p`.
pub fn without_extension(p: &str) -> (r: &str)
    ensures
        r@ == path_without_extension(p@),
{
    match extension_dot_of(p) {
        Some(d) => {
            proof {
                lemma_extension_dot_bound(p@);
            }
            let r = p.substring_char(0, d);
            assert(r@ =~= p@.take(d as int));
            r
        },
        None => p,
    }
}

/// `p` up to its last dot, or all of `p` when it holds none.
pub fn strip_last_dot_of(p: &str) -> (r: &str)
    ensures
        r@ == strip_last_dot(p@),
{
    match last_index_of(p, '.') {
        Some(d) => {
            proof {
                lemma_last_index_bound(p@, '.');
            }
            let r = p.substring_char(0, d);
            assert(r@ =~= p@.take(d as int));
            r
        },
        None => p,
    }
}

/// Whether a lower-case extension is one of the recognised image formats.
pub fn is_image_extension(e: &str) -> (r: bool)
    ensures
        r == is_image_ext(e@),
{
    proof {
        reveal_strlit("jpg");
        reveal_strlit("jpeg");
        reveal_strlit("png");
        reveal_strlit("webp");
        reveal_strlit("gif");
        reveal_strlit("jxl");
        reveal_strlit("avif");
        assert("jpg"@ =~= seq!['j', 'p', 'g']);
        assert("jpeg"@ =~= seq!['j', 'p', 'e', 'g']);
        assert("png"@ =~= seq!['p', 'n', 'g']);
        assert("webp"@ =~= seq!['w', 'e', 'b', 'p']);
        assert("gif"@ =~= seq!['g', 'i', 'f']);
        assert("jxl"@ =~= seq!['j', 'x', 'l']);
        assert("avif"@ =~= seq!['a', 'v', 'i', 'f']);
    }
    str_eq(e, "jpg") || str_eq(e, "jpeg") || str_eq(e, "png") || str_eq(e, "webp") || str_eq(
        e,
        "gif",
    ) || str_eq(e, "jxl") || str_eq(e, "avif")
}

/// The cache prefix that the source image at relative path `rel` owns: the
/// path without extension, separators turned into `_`. `None` when `rel` is
/// not an image or encodes to nothing.
pub fn source_prefix(rel: &str) -> (r: Option<String>)
    ensures
        r matches Some(p) ==> source_cache_prefix(rel@) == Some(p@),
        r is None ==> source_cache_prefix(rel@) is None,
{
    let ext = match extension_of(rel) {
        Some(e) => e,
        None => return None,
    };
    let lower = to_ascii_lowercase(ext);
    if !is_image_extension(lower.as_str()) {
        return None;
    }
    let no_ext = without_extension(rel);
    let encoded = replace_chars(no_ext, '/', '\\', '_');
    if encoded.as_str().unicode_len() == 0 {
        None
    } else {
        Some(encoded)
    }
}

/// The start of the cache file names made stale by a change at the path `rel`
/// (relative to the image directory).
pub fn relative_cache_needle(rel: &str) -> (r: Option<String>)
    ensures
        r matches Some(n) ==> cache_needle(rel@) == Some(n@),
        r is None ==> cache_needle(rel@) is None,
{
    let no_ext = without_extension(rel);
    if no_ext.unicode_len() == 0 {
        return None;
    }
    let is_image = match extension_of(rel) {
        Some(e) => {
            let lower = to_ascii_lowercase(e);
            is_image_extension(lower.as_str())
        },
        None => false,
    };
    let mut needle = replace_chars(no_ext, '/', '\\', '_');
    if is_image {
        push_str(&mut needle, "_w");
    } else {
        push_str(&mut needle, "_");
    }
    proof {
        reveal_strlit("_w");
        reveal_strlit("_");
        assert(needle@ =~= cache_needle(rel@)->0);
    }
    Some(needle)
}

/// Whether `set` holds a string equal to `s`.
pub fn contains_string(set: &Vec<String>, s: &str) -> (r: bool)
    ensures
        r == contains_str(set@, s@),
{
    let mut i: usize = 0;
    while i < set.len()
        invariant
            i <= set@.len(),
            forall|k: int| 0 <= k < i ==> set@[k]@ != s@,
        decreases set@.len() - i,
    {
        if str_eq(set[i].as_str(), s) {
            return true;
        }
        i = i + 1;
    }
    false
}

/// How the cache sweep classes the cache file `filename`, given the prefixes
/// of the source images that exist.
pub fn cache_entry_status(filename: &str, valid_prefixes: &Vec<String>) -> (r: CacheEntryStatus)
    ensures
        r == (match cache_prefix_of(filename@) {
            None => CacheEntryStatus::Unrecognised,
            Some(p) => if contains_str(valid_prefixes@, p) {
                CacheEntryStatus::Current
            } else {
                CacheEntryStatus::Orphaned
            },
        }),
{
    match cache_file_prefix(filename) {
        None => CacheEntryStatus::Unrecognised,
        Some(p) => if contains_string(valid_prefixes, p) {
            CacheEntryStatus::Current
        } else {
            CacheEntryStatus::Orphaned
        },
    }
}

/// Whether `name` starts with one of `needles`.
pub fn matches_any_needle(name: &str, needles: &Vec<String>) -> (r: bool)
    ensures
        r == exists|i: int| 0 <= i < needles@.len() && starts_with(name@, #[trigger] needles@[i]@),
{
    let mut i: usize = 0;
    while i < needles.len()
        invariant
            i <= needles@.len(),
            forall|k: int| 0 <= k < i ==> !starts_with(name@, #[trigger] needles@[k]@),
        decreases needles@.len() - i,
    {
        if str_starts_with(name, needles[i].as_str()) {
            return true;
        }
        i = i + 1;
    }
    false
}


/// A cache file that the prewarm writes for an existing source image is never
/// an orphan to the cache sweep: the prewarm cuts the source path at its last
/// dot, the sweep derives the prefix from the extension, and both name the same
/// prefix.
pub proof fn lemma_prewarmed_cache_is_current(
    rel: Seq<char>,
    width: u32,
    quality: u8,
    valid_prefixes: Seq<String>,
)
    requires
        source_cache_prefix(rel) is Some,
        contains_str(valid_prefixes, source_cache_prefix(rel)->0),
    ensures
        cache_prefix_of(cache_file_name(strip_last_dot(rel), width, quality)) == source_cache_prefix(
            rel,
        ),
        contains_str(
            valid_prefixes,
            cache_prefix_of(cache_file_name(strip_last_dot(rel), width, quality))->0,
        ),
{
    lemma_extension_dot_bound(rel);
    assert(strip_last_dot(rel) == path_without_extension(rel));
    lemma_cache_name_roundtrip(strip_last_dot(rel), width, quality);
}

/// The needle for a changed image covers every compressed variant cached for it.
pub proof fn lemma_image_needle_covers_variants(rel: Seq<char>, width: u32, quality: u8)
    requires
        path_extension(rel) matches Some(e) && is_image_ext(ascii_lowercase(e)),
        path_without_extension(rel).len() > 0,
    ensures
        cache_needle(rel) is Some,
        starts_with(
            cache_file_name(path_without_extension(rel), width, quality),
            cache_needle(rel)->0,
        ),
{
    let name = cache_file_name(path_without_extension(rel), width, quality);
    let needle = cache_needle(rel)->0;
    assert(name.subrange(0, needle.len() as int) =~= needle);
}

/// The needle for a changed folder (a path without extension) covers the
/// cache prefix of every image below it.
pub proof fn lemma_folder_needle_covers_descendants(rel: Seq<char>, rest: Seq<char>)
    requires
        path_extension(rel) is None,
        rel.len() > 0,
    ensures
        cache_needle(rel) is Some,
        starts_with(encode_cache_path(rel + seq!['/'] + rest), cache_needle(rel)->0),
{
    let whole = encode_cache_path(rel + seq!['/'] + rest);
    let needle = cache_needle(rel)->0;
    assert(path_without_extension(rel) == rel);
    assert(needle =~= encode_cache_path(rel) + seq!['_']);
    assert(whole.subrange(0, needle.len() as int) =~= needle);
}


/// Whether a cache file may be served instead of re-encoding its source: when
/// both modification times are known the cache must be no older than the
/// source; when either is unknown the cache is used as it is. Times are
/// nanoseconds from the Unix epoch.
pub fn cache_is_fresh(source_mtime: Option<i128>, cache_mtime: Option<i128>) -> (r: bool)
    ensures
        r == (match (source_mtime, cache_mtime) {
            (Some(s), Some(c)) => c >= s,
            _ => true,
        }),
{
    match (source_mtime, cache_mtime) {
        (Some(s), Some(c)) => c >= s,
        _ => true,
    }
}

/// Whether a cache file last read `age_nanos` ago is older than `max_age_nanos`;
/// `None` (no access time, or one in the future) is never old.
pub fn is_cache_file_old(age_nanos: Option<u128>, max_age_nanos: u128) -> (r: bool)
    ensures
        r == (age_nanos matches Some(a) && a > max_age_nanos),
{
    match age_nanos {
        Some(a) => a > max_age_nanos,
        None => false,
    }
}

/// Whole days in an age given in seconds, 0 when the age is unknown.
pub fn file_age_days(age_secs: Option<u64>) -> (r: u64)
    ensures
        r == (match age_secs {
            Some(s) => s / 86400,
            None => 0,
        }),
{
    match age_secs {
        Some(s) => s / 86400,
        None => 0,
    }
}


/// Whether `p` is the cache prefix of one of the source files `files`.
pub open spec fn is_valid_prefix(files: Seq<String>, p: Seq<char>) -> bool {
    exists|i: int| 0 <= i < files.len() && #[trigger] source_cache_prefix(files[i]@) == Some(p)
}

/// The cache prefixes owned by the source files (paths relative to the
/// images directory), each once.
pub fn collect_valid_prefixes(files: &Vec<String>) -> (r: Vec<String>)
    ensures
        forall|a: int, b: int| 0 <= a < b < r@.len() ==> #[trigger] r@[a]@ != #[trigger] r@[b]@,
        forall|p: Seq<char>| contains_str(r@, p) <==> is_valid_prefix(files@, p),
{
    let mut r: Vec<String> = Vec::new();
    let mut i: usize = 0;
    while i < files.len()
        invariant
            i <= files@.len(),
            forall|a: int, b: int| 0 <= a < b < r@.len() ==> #[trigger] r@[a]@ != #[trigger] r@[b]@,
            forall|p: Seq<char>| contains_str(r@, p) <==> is_valid_prefix(files@.take(i as int), p),
        decreases files@.len() - i,
    {
        let ghost before = r@;
        let ghost t = files@.take(i + 1);
        proof {
            assert forall|p: Seq<char>| is_valid_prefix(t, p) <==> (is_valid_prefix(
                files@.take(i as int),
                p,
            ) || source_cache_prefix(files@[i as int]@) == Some(p)) by {
                if is_valid_prefix(t, p) {
                    let k = choose|k: int| 0 <= k < t.len() && #[trigger] source_cache_prefix(t[k]@) == Some(p);
                    if k < i {
                        assert(files@.take(i as int)[k] == t[k]);
                    }
                }
                if is_valid_prefix(files@.take(i as int), p) {
                    let k = choose|k: int| 0 <= k < i && #[trigger] source_cache_prefix(files@.take(i as int)[k]@) == Some(p);
                    assert(t[k] == files@.take(i as int)[k]);
                }
                if source_cache_prefix(files@[i as int]@) == Some(p) {
                    assert(t[i as int] == files@[i as int]);
                }
            }
        }
        let ghost np = source_cache_prefix(files@[i as int]@);
        match source_prefix(files[i].as_str()) {
            Some(p) => {
                if !contains_string(&r, p.as_str()) {
                    r.push(p);
                    proof {
                        assert forall|a: int, b: int| 0 <= a < b < r@.len() implies #[trigger] r@[a]@
                            != #[trigger] r@[b]@ by {
                            assert(r@[a] == before[a]);
                            if b < before.len() {
                                assert(r@[b] == before[b]);
                            }
                        }
                        assert forall|q: Seq<char>| contains_str(r@, q) <==> (contains_str(before, q) || np == Some(q)) by {
                            if contains_str(r@, q) {
                                let k = choose|k: int| 0 <= k < r@.len() && #[trigger] r@[k]@ == q;
                                if k < before.len() {
                                    assert(r@[k] == before[k]);
                                }
                            }
                            if contains_str(before, q) {
                                let k = choose|k: int| 0 <= k < before.len() && #[trigger] before[k]@ == q;
                                assert(r@[k] == before[k]);
                            }
                            if np == Some(q) {
                                assert(r@[r@.len() - 1]@ == q);
                            }
                        }
                    }
                } else {
                    assert forall|q: Seq<char>| contains_str(r@, q) <==> (contains_str(before, q) || np == Some(q)) by {
                    }
                }
            },
            None => {
                assert forall|q: Seq<char>| contains_str(r@, q) <==> (contains_str(before, q) || np == Some(q)) by {
                }
            },
        }
        proof {
            assert forall|q: Seq<char>| contains_str(r@, q) <==> is_valid_prefix(t, q) by {
                assert(contains_str(before, q) <==> is_valid_prefix(files@.take(i as int), q));
            }
            assert(t == files@.take(i + 1));
        }
        i = i + 1;
    }
    assert(files@.take(files@.len() as int) =~= files@);
    r
}

/// How long a cache file may go unread before the sweep removes it: 30
/// days, in seconds.
pub const MAX_CACHE_AGE_SECS: u64 = 2592000;

/// What the cache sweep does with one file of the cache directory.
#[derive(Debug, Clone, Copy, PartialEq, Eq)]
pub enum CleanupAction {
    /// Leave the file: it is not a cache file, or it is current and recent.
    Keep,
    /// Remove it: its source image no longer exists.
    RemoveOrphan,
    /// Remove it: it has not been read for longer than the maximum age.
    RemoveOld,
}

/// What the sweep does with the file `filename`, given the prefixes of the
/// source images that exist and how long ago (in nanoseconds) the file was
/// last read, if that is known.
pub open spec fn cleanup_action(
    filename: Seq<char>,
    valid_prefixes: Seq<String>,
    age_nanos: Option<u128>,
) -> CleanupAction {
    match cache_prefix_of(filename) {
        None => CleanupAction::Keep,
        Some(p) => if !contains_str(valid_prefixes, p) {
            CleanupAction::RemoveOrphan
        } else if age_nanos matches Some(a) && a > MAX_CACHE_AGE_SECS as int * 1_000_000_000 {
            CleanupAction::RemoveOld
        } else {
            CleanupAction::Keep
        },
    }
}

/// What the cache sweep does with one file: files whose names are not cache
/// file names are left alone; orphans are removed; current files are removed
/// when unread for more than 30 days.
pub fn cleanup_decision(filename: &str, valid_prefixes: &Vec<String>, age_nanos: Option<u128>) -> (r:
    CleanupAction)
    ensures
        r == cleanup_action(filename@, valid_prefixes@, age_nanos),
{
    match cache_entry_status(filename, valid_prefixes) {
        CacheEntryStatus::Unrecognised => CleanupAction::Keep,
        CacheEntryStatus::Orphaned => CleanupAction::RemoveOrphan,
        CacheEntryStatus::Current => {
            let max_age: u128 = MAX_CACHE_AGE_SECS as u128 * 1_000_000_000;
            if is_cache_file_old(age_nanos, max_age) {
                CleanupAction::RemoveOld
            } else {
                CleanupAction::Keep
            }
        },
    }
}

} // verus!
