//! Photo discovery: which files are images, how variants of one photo are
//! grouped and ordered, how titles, slugs and URLs are derived, how photos and
//! galleries are ordered, and what the About page shows.

use vstd::prelude::*;
use vstd::utf8::encode_utf8;
use vstd::multiset::Multiset;
use crate::text::{
    char_vecs, lowercase, push_decimal, push_str, replace2, replace_chars, split_chars,
    split_on, string_from_chars, to_chars, to_lowercase, decimal, lex_le, lemma_lex_le_total,
    lemma_lex_le_transitive, str_le,
};
use crate::image_cache::{is_image_ext, is_image_extension};
use crate::types::{AboutContent, GalleryConfig, GalleryInfo, ImageSource, PhotoInfo, PhotoOverrides};
use crate::exif::{opt_view, ExifData};
use crate::image_params::{default_params_of, get_default_image_params};

verus! {

/// The MIME type of a lower-case image extension.
pub open spec fn mime_of(ext: Seq<char>) -> Seq<char> {
    if ext == seq!['j', 'p', 'g'] || ext == seq!['j', 'p', 'e', 'g'] {
        seq!['i', 'm', 'a', 'g', 'e', '/', 'j', 'p', 'e', 'g']
    } else if ext == seq!['p', 'n', 'g'] {
        seq!['i', 'm', 'a', 'g', 'e', '/', 'p', 'n', 'g']
    } else if ext == seq!['w', 'e', 'b', 'p'] {
        seq!['i', 'm', 'a', 'g', 'e', '/', 'w', 'e', 'b', 'p']
    } else if ext == seq!['g', 'i', 'f'] {
        seq!['i', 'm', 'a', 'g', 'e', '/', 'g', 'i', 'f']
    } else if ext == seq!['j', 'x', 'l'] {
        seq!['i', 'm', 'a', 'g', 'e', '/', 'j', 'x', 'l']
    } else if ext == seq!['a', 'v', 'i', 'f'] {
        seq!['i', 'm', 'a', 'g', 'e', '/', 'a', 'v', 'i', 'f']
    } else {
        "application/octet-stream"@
    }
}

/// The place of a format among a photo's variants (lower is preferred as the
/// primary image): JPEG first as the universal fallback, then AVIF, JXL, WebP,
/// PNG and GIF.
pub open spec fn priority_of(ext: Seq<char>) -> u8 {
    if ext == seq!['j', 'p', 'g'] || ext == seq!['j', 'p', 'e', 'g'] {
        0
    } else if ext == seq!['a', 'v', 'i', 'f'] {
        1
    } else if ext == seq!['j', 'x', 'l'] {
        2
    } else if ext == seq!['w', 'e', 'b', 'p'] {
        3
    } else if ext == seq!['p', 'n', 'g'] {
        4
    } else if ext == seq!['g', 'i', 'f'] {
        5
    } else {
        99
    }
}

proof fn reveal_extension_literals()
    ensures
        "jpg"@ == seq!['j', 'p', 'g'],
        "jpeg"@ == seq!['j', 'p', 'e', 'g'],
        "png"@ == seq!['p', 'n', 'g'],
        "webp"@ == seq!['w', 'e', 'b', 'p'],
        "gif"@ == seq!['g', 'i', 'f'],
        "jxl"@ == seq!['j', 'x', 'l'],
        "avif"@ == seq!['a', 'v', 'i', 'f'],
        "image/jpeg"@ == seq!['i', 'm', 'a', 'g', 'e', '/', 'j', 'p', 'e', 'g'],
        "image/png"@ == seq!['i', 'm', 'a', 'g', 'e', '/', 'p', 'n', 'g'],
        "image/webp"@ == seq!['i', 'm', 'a', 'g', 'e', '/', 'w', 'e', 'b', 'p'],
        "image/gif"@ == seq!['i', 'm', 'a', 'g', 'e', '/', 'g', 'i', 'f'],
        "image/jxl"@ == seq!['i', 'm', 'a', 'g', 'e', '/', 'j', 'x', 'l'],
        "image/avif"@ == seq!['i', 'm', 'a', 'g', 'e', '/', 'a', 'v', 'i', 'f'],
{
    reveal_strlit("jpg");
    reveal_strlit("jpeg");
    reveal_strlit("png");
    reveal_strlit("webp");
    reveal_strlit("gif");
    reveal_strlit("jxl");
    reveal_strlit("avif");
    reveal_strlit("image/jpeg");
    reveal_strlit("image/png");
    reveal_strlit("image/webp");
    reveal_strlit("image/gif");
    reveal_strlit("image/jxl");
    reveal_strlit("image/avif");
    assert("jpg"@ =~= seq!['j', 'p', 'g']);
    assert("jpeg"@ =~= seq!['j', 'p', 'e', 'g']);
    assert("png"@ =~= seq!['p', 'n', 'g']);
    assert("webp"@ =~= seq!['w', 'e', 'b', 'p']);
    assert("gif"@ =~= seq!['g', 'i', 'f']);
    assert("jxl"@ =~= seq!['j', 'x', 'l']);
    assert("avif"@ =~= seq!['a', 'v', 'i', 'f']);
    assert("image/jpeg"@ =~= seq!['i', 'm', 'a', 'g', 'e', '/', 'j', 'p', 'e', 'g']);
    assert("image/png"@ =~= seq!['i', 'm', 'a', 'g', 'e', '/', 'p', 'n', 'g']);
    assert("image/webp"@ =~= seq!['i', 'm', 'a', 'g', 'e', '/', 'w', 'e', 'b', 'p']);
    assert("image/gif"@ =~= seq!['i', 'm', 'a', 'g', 'e', '/', 'g', 'i', 'f']);
    assert("image/jxl"@ =~= seq!['i', 'm', 'a', 'g', 'e', '/', 'j', 'x', 'l']);
    assert("image/avif"@ =~= seq!['i', 'm', 'a', 'g', 'e', '/', 'a', 'v', 'i', 'f']);
}

/// The MIME type of a lower-case extension.
pub fn get_mime_type(extension: &str) -> (r: &'static str)
    ensures
        r@ == mime_of(extension@),
{
    proof {
        reveal_extension_literals();
    }
    if crate::text::str_eq(extension, "jpg") || crate::text::str_eq(extension, "jpeg") {
        "image/jpeg"
    } else if crate::text::str_eq(extension, "png") {
        "image/png"
    } else if crate::text::str_eq(extension, "webp") {
        "image/webp"
    } else if crate::text::str_eq(extension, "gif") {
        "image/gif"
    } else if crate::text::str_eq(extension, "jxl") {
        "image/jxl"
    } else if crate::text::str_eq(extension, "avif") {
        "image/avif"
    } else {
        "application/octet-stream"
    }
}

/// The priority of a lower-case extension (lower is preferred).
pub fn format_priority(extension: &str) -> (r: u8)
    ensures
        r == priority_of(extension@),
{
    proof {
        reveal_extension_literals();
    }
    if crate::text::str_eq(extension, "jpg") || crate::text::str_eq(extension, "jpeg") {
        0
    } else if crate::text::str_eq(extension, "avif") {
        1
    } else if crate::text::str_eq(extension, "jxl") {
        2
    } else if crate::text::str_eq(extension, "webp") {
        3
    } else if crate::text::str_eq(extension, "png") {
        4
    } else if crate::text::str_eq(extension, "gif") {
        5
    } else {
        99
    }
}

/// One image file of a gallery: its path relative to the image root, its
/// lower-case extension, and the path without that extension, which names the
/// photo the file is a variant of.
#[derive(Clone, Debug, PartialEq)]
pub struct ImageVariant {
    pub relative_path: String,
    /// The extension, lower-cased.
    pub extension: String,
    /// The path with its extension cut, whatever the extension's case.
    pub base_path: String,
    /// The extension as the file name writes it.
    pub file_extension: String,
}

/// The variant that a file at `relative_path` with extension `raw_extension`
/// is, if the extension is an image format: the extension is lower-cased,
/// and every trailing `.{raw_extension}` is cut from the path to form the
/// base, so that files of one name share a base whatever their extension's
/// case.
pub open spec fn variant_of(relative_path: Seq<char>, raw_extension: Seq<char>) -> Option<
    (Seq<char>, Seq<char>, Seq<char>),
> {
    let ext = lowercase(raw_extension);
    if is_image_ext(ext) {
        Some(
            (
                relative_path,
                ext,
                crate::text::trim_end_matches(relative_path, seq!['.'] + raw_extension),
            ),
        )
    } else {
        None
    }
}

/// The image variant for a file, or `None` for a file that is not an image.
pub fn image_variant(relative_path: &str, raw_extension: &str) -> (r: Option<ImageVariant>)
    ensures
        match variant_of(relative_path@, raw_extension@) {
            Some(t) => r matches Some(v) && v.relative_path@ == t.0 && v.extension@ == t.1
                && v.base_path@ == t.2 && v.file_extension@ == raw_extension@,
            None => r is None,
        },
{
    let ext = to_lowercase(raw_extension);
    if !is_image_extension(ext.as_str()) {
        return None;
    }
    let mut dotted = String::new();
    dotted.push('.');
    push_str(&mut dotted, raw_extension);
    assert(dotted@ =~= seq!['.'] + raw_extension@);
    let base = crate::text::trim_end_matches_str(relative_path, dotted.as_str());
    Some(
        ImageVariant {
            relative_path: String::from_str(relative_path),
            extension: ext,
            base_path: String::from_str(base),
            file_extension: String::from_str(raw_extension),
        },
    )
}


/// `r` holds items of `s` from index `k` on, each index once, with
/// `r[i] == s[perm[i]]`, and two items that `le` orders the other way round
/// keep the order they had in `s`.
pub open spec fn arranged_from<T>(s: Seq<T>, r: Seq<T>, perm: Seq<int>, k: int, le: spec_fn(T, T) -> bool) -> bool {
    &&& perm.len() == r.len()
    &&& perm.no_duplicates()
    &&& forall|i: int| 0 <= i < r.len() ==> k <= #[trigger] perm[i] < s.len() && r[i] == s[perm[i]]
    &&& forall|i: int, j: int|
        0 <= i < j < r.len() && le(r[j], r[i]) ==> #[trigger] perm[i] < #[trigger] perm[j]
}

/// `r` is `s` rearranged by `perm`, and items that `le` finds equivalent
/// (each before the other) keep their order: with `r` sorted by `le`, this
/// is the stable sort of `s`.
pub open spec fn stable_rearrangement<T>(s: Seq<T>, r: Seq<T>, perm: Seq<int>, le: spec_fn(T, T) -> bool) -> bool {
    &&& r.len() == s.len()
    &&& arranged_from(s, r, perm, 0, le)
}

/// `r` is `s` stably rearranged by `le`, for some choice of indices.
pub open spec fn stably_rearranged<T>(s: Seq<T>, r: Seq<T>, le: spec_fn(T, T) -> bool) -> bool {
    exists|perm: Seq<int>| #[trigger] stable_rearrangement(s, r, perm, le)
}

/// Inserting `s[k - 1]` before the first item it is ordered before keeps an
/// arrangement stable.
proof fn lemma_arranged_insert<T>(s: Seq<T>, r: Seq<T>, perm: Seq<int>, k: int, p: int, le: spec_fn(T, T) -> bool)
    requires
        0 < k <= s.len(),
        0 <= p <= r.len(),
        arranged_from(s, r, perm, k, le),
        forall|i: int| 0 <= i < p ==> !le(s[k - 1], #[trigger] r[i]),
    ensures
        arranged_from(s, r.insert(p, s[k - 1]), perm.insert(p, k - 1), k - 1, le),
{
    let r2 = r.insert(p, s[k - 1]);
    let perm2 = perm.insert(p, k - 1);
    assert forall|i: int| 0 <= i < r2.len() implies k - 1 <= #[trigger] perm2[i] < s.len() && r2[i]
        == s[perm2[i]] by {
        if i > p {
            assert(perm2[i] == perm[i - 1]);
            assert(r2[i] == r[i - 1]);
        }
    }
    assert forall|i: int, j: int|
        0 <= i < perm2.len() && 0 <= j < perm2.len() && i != j implies perm2[i] != perm2[j] by {
        if i != p && j != p {
            let a = if i < p { i } else { i - 1 };
            let b = if j < p { j } else { j - 1 };
            assert(perm2[i] == perm[a]);
            assert(perm2[j] == perm[b]);
        } else if i == p {
            let b = if j < p { j } else { j - 1 };
            assert(perm2[j] == perm[b]);
        } else {
            let a = if i < p { i } else { i - 1 };
            assert(perm2[i] == perm[a]);
        }
    }
    assert forall|i: int, j: int|
        0 <= i < j < r2.len() && le(r2[j], r2[i]) implies #[trigger] perm2[i] < #[trigger] perm2[j] by {
        if j < p {
            assert(r2[i] == r[i] && r2[j] == r[j]);
        } else if j == p {
            assert(r2[i] == r[i]);
        } else if i == p {
            assert(perm2[j] == perm[j - 1]);
        } else if i < p {
            assert(r2[i] == r[i] && r2[j] == r[j - 1]);
            assert(perm2[j] == perm[j - 1]);
        } else {
            assert(r2[i] == r[i - 1] && r2[j] == r[j - 1]);
            assert(perm2[i] == perm[i - 1] && perm2[j] == perm[j - 1]);
        }
    }
}

/// The variants of `s` are in order of format priority.
pub open spec fn variants_sorted(s: Seq<ImageVariant>) -> bool {
    forall|i: int, j: int|
        0 <= i < j < s.len() ==> priority_of(#[trigger] s[i].extension@) <= priority_of(
            #[trigger] s[j].extension@,
        )
}

/// The order of format priority as a relation.
pub open spec fn variant_order() -> spec_fn(ImageVariant, ImageVariant) -> bool {
    |a: ImageVariant, b: ImageVariant| priority_of(a.extension@) <= priority_of(b.extension@)
}

/// The variants of one photo in order of format priority (the primary image
/// first); variants of equal priority keep their order.
pub fn sort_variants(group: Vec<ImageVariant>) -> (r: Vec<ImageVariant>)
    ensures
        variants_sorted(r@),
        r@.to_multiset() == group@.to_multiset(),
        stably_rearranged(group@, r@, variant_order()),
{
    broadcast use vstd::seq_lib::group_to_multiset_ensures;

    let mut input = group;
    let mut out: Vec<ImageVariant> = Vec::new();
    let ghost mut perm: Seq<int> = Seq::empty();
    proof {
        assert(out@.to_multiset().add(input@.to_multiset()) =~= group@.to_multiset());
        assert(input@ =~= group@.take(input@.len() as int));
    }
    while input.len() > 0
        invariant
            variants_sorted(out@),
            out@.to_multiset().add(input@.to_multiset()) == group@.to_multiset(),
            input@ == group@.take(input@.len() as int),
            out@.len() + input@.len() == group@.len(),
            arranged_from(group@, out@, perm, input@.len() as int, variant_order()),
        decreases input@.len(),
    {
        let ghost before_in = input@;
        let ghost before_out = out@;
        let ghost k = input@.len() as int;
        let x = input.pop().unwrap();
        assert(before_in =~= input@.push(x));
        assert(input@ =~= group@.take(k - 1));
        assert(x == group@[k - 1]);
        let px = format_priority(x.extension.as_str());
        let mut p: usize = 0;
        while p < out.len() && format_priority(out[p].extension.as_str()) < px
            invariant
                out@ == before_out,
                p <= out@.len(),
                px == priority_of(x.extension@),
                forall|k: int| 0 <= k < p ==> priority_of(#[trigger] out@[k].extension@) < px,
            decreases out@.len() - p,
        {
            p = p + 1;
        }
        out.insert(p, x);
        proof {
            lemma_arranged_insert(group@, before_out, perm, k, p as int, variant_order());
            perm = perm.insert(p as int, k - 1);
            assert forall|i: int, j: int| 0 <= i < j < out@.len() implies priority_of(
                #[trigger] out@[i].extension@,
            ) <= priority_of(#[trigger] out@[j].extension@) by {
                if p < before_out.len() {
                    assert(px <= priority_of(before_out[p as int].extension@));
                }
                if j < p {
                } else if i < p && j == p {
                } else if i < p && j > p {
                    assert(out@[j] == before_out[j - 1]);
                } else if i == p {
                    assert(out@[j] == before_out[j - 1]);
                    assert(priority_of(before_out[p as int].extension@) <= priority_of(
                        before_out[j - 1].extension@,
                    ));
                } else {
                    assert(out@[i] == before_out[i - 1]);
                    assert(out@[j] == before_out[j - 1]);
                }
            }
            assert(out@ == before_out.insert(p as int, x));
            vstd::seq_lib::to_multiset_insert(before_out, p as int, x);
            vstd::seq_lib::to_multiset_build(input@, x);
            assert(out@.to_multiset().add(input@.to_multiset()) =~= before_out.to_multiset().add(
                before_in.to_multiset(),
            ));
        }
    }
    proof {
        assert(input@.to_multiset() =~= Multiset::empty());
        assert(out@.to_multiset() =~= group@.to_multiset());
        assert(stable_rearrangement(group@, out@, perm, variant_order()));
    }
    out
}


/// The contents of each group.
pub open spec fn variant_views(groups: Seq<Vec<ImageVariant>>) -> Seq<Seq<ImageVariant>> {
    groups.map_values(|v: Vec<ImageVariant>| v@)
}

/// All members of the groups, group after group.
pub open spec fn flat(ss: Seq<Seq<ImageVariant>>) -> Seq<ImageVariant>
    decreases ss.len(),
{
    if ss.len() == 0 {
        Seq::empty()
    } else {
        flat(ss.drop_last()) + ss.last()
    }
}

/// Every group is non-empty, its members share one base path, and no two
/// groups share a base path.
pub open spec fn well_grouped(ss: Seq<Seq<ImageVariant>>) -> bool {
    &&& forall|g: int| 0 <= g < ss.len() ==> (#[trigger] ss[g]).len() > 0
    &&& forall|g: int, k: int|
        0 <= g < ss.len() && 0 <= k < ss[g].len() ==> (#[trigger] ss[g][k]).base_path@
            == ss[g][0].base_path@
    &&& forall|g1: int, g2: int|
        0 <= g1 < ss.len() && 0 <= g2 < ss.len() && g1 != g2 ==> (#[trigger] ss[g1])[0].base_path@
            != (#[trigger] ss[g2])[0].base_path@
}

proof fn lemma_flat_push_group(ss: Seq<Seq<ImageVariant>>, x: ImageVariant)
    ensures
        flat(ss.push(seq![x])).to_multiset() == flat(ss).to_multiset().insert(x),
{
    broadcast use vstd::seq_lib::group_to_multiset_ensures;

    assert(ss.push(seq![x]).drop_last() =~= ss);
    assert(flat(ss.push(seq![x])) =~= flat(ss).push(x));
    vstd::seq_lib::to_multiset_build(flat(ss), x);
}

proof fn lemma_flat_extend_group(ss: Seq<Seq<ImageVariant>>, g: int, x: ImageVariant)
    requires
        0 <= g < ss.len(),
    ensures
        flat(ss.update(g, ss[g].push(x))).to_multiset() == flat(ss).to_multiset().insert(x),
    decreases ss.len(),
{
    broadcast use vstd::seq_lib::group_to_multiset_ensures;

    let t = ss.update(g, ss[g].push(x));
    if g == ss.len() - 1 {
        assert(t.drop_last() =~= ss.drop_last());
        assert(flat(t) =~= (flat(ss.drop_last()) + ss.last()).push(x));
        vstd::seq_lib::to_multiset_build(flat(ss), x);
    } else {
        lemma_flat_extend_group(ss.drop_last(), g, x);
        assert(t.drop_last() =~= ss.drop_last().update(g, ss[g].push(x)));
        vstd::seq_lib::lemma_multiset_commutative(flat(t.drop_last()), ss.last());
        vstd::seq_lib::lemma_multiset_commutative(flat(ss.drop_last()), ss.last());
        assert(flat(t).to_multiset() =~= flat(ss).to_multiset().insert(x));
    }
}

/// A file has base path `key`.
pub open spec fn has_base(key: Seq<char>) -> spec_fn(ImageVariant) -> bool {
    |v: ImageVariant| v.base_path@ == key
}

/// The files with base path `key`, in their order.
pub open spec fn members(files: Seq<ImageVariant>, key: Seq<char>) -> Seq<ImageVariant> {
    files.filter(has_base(key))
}

/// Some group has base path `key`.
pub open spec fn has_group(ss: Seq<Seq<ImageVariant>>, key: Seq<char>) -> bool {
    exists|g: int| 0 <= g < ss.len() && (#[trigger] ss[g])[0].base_path@ == key
}

/// `ss` groups `files`: each group holds, in their order, exactly the files
/// with its base path, and every file is in a group.
pub open spec fn groups_of(ss: Seq<Seq<ImageVariant>>, files: Seq<ImageVariant>) -> bool {
    &&& well_grouped(ss)
    &&& forall|g: int| 0 <= g < ss.len() ==> #[trigger] ss[g] == members(files, ss[g][0].base_path@)
    &&& forall|j: int| 0 <= j < files.len() ==> has_group(ss, #[trigger] files[j].base_path@)
}

proof fn lemma_members_none(s: Seq<ImageVariant>, key: Seq<char>)
    requires
        forall|j: int| 0 <= j < s.len() ==> #[trigger] s[j].base_path@ != key,
    ensures
        members(s, key) == Seq::<ImageVariant>::empty(),
    decreases s.len(),
{
    reveal(Seq::filter);
    if s.len() > 0 {
        assert forall|j: int| 0 <= j < s.drop_last().len() implies #[trigger] s.drop_last()[j].base_path@
            != key by {
            assert(s.drop_last()[j] == s[j]);
        }
        lemma_members_none(s.drop_last(), key);
        assert(!has_base(key)(s.last()));
    }
}

/// The image files of a folder grouped into photos: files with the same base
/// path (the same name up to the extension) are variants of one photo, in
/// the order the files came.
pub fn group_variants(files: Vec<ImageVariant>) -> (r: Vec<Vec<ImageVariant>>)
    ensures
        groups_of(variant_views(r@), files@),
        flat(variant_views(r@)).to_multiset() == files@.to_multiset(),
{
    broadcast use vstd::seq_lib::group_to_multiset_ensures;

    let n = files.len();
    let mut src = files;
    let mut pending: Vec<ImageVariant> = Vec::new();
    assert(src@ =~= files@.take(src@.len() as int));
    while src.len() > 0
        invariant
            n == files@.len(),
            src@ == files@.take(src@.len() as int),
            pending@.len() + src@.len() == n,
            forall|j: int| 0 <= j < pending@.len() ==> #[trigger] pending@[j] == files@[n - 1 - j],
        decreases src@.len(),
    {
        let ghost k = src@.len() as int;
        let x = src.pop().unwrap();
        assert(x == files@[k - 1]);
        assert(src@ =~= files@.take(k - 1));
        pending.push(x);
    }
    let mut groups: Vec<Vec<ImageVariant>> = Vec::new();
    proof {
        assert(variant_views(groups@) =~= Seq::<Seq<ImageVariant>>::empty());
        assert(files@.take(0) =~= Seq::<ImageVariant>::empty());
    }
    while pending.len() > 0
        invariant
            n == files@.len(),
            pending@.len() <= n,
            forall|j: int| 0 <= j < pending@.len() ==> #[trigger] pending@[j] == files@[n - 1 - j],
            groups_of(variant_views(groups@), files@.take(n - pending@.len())),
            flat(variant_views(groups@)).to_multiset() == files@.take(n - pending@.len()).to_multiset(),
        decreases pending@.len(),
    {
        let ghost done = files@.take(n - pending@.len());
        let ghost old_views = variant_views(groups@);
        let x = pending.pop().unwrap();
        assert(x == files@[n - 1 - pending@.len()]);
        let ghost done2 = files@.take(n - pending@.len());
        assert(done2 =~= done.push(x));
        proof {
            vstd::seq_lib::to_multiset_build(done, x);
        }
        let mut g: usize = 0;
        let mut found = false;
        while g < groups.len()
            invariant
                variant_views(groups@) == old_views,
                well_grouped(old_views),
                g <= groups@.len(),
                found ==> g < groups@.len() && groups@[g as int]@[0].base_path@
                    == x.base_path@,
                !found ==> forall|k: int| 0 <= k < g ==> old_views[k][0].base_path@
                    != x.base_path@,
            ensures
                variant_views(groups@) == old_views,
                found ==> g < groups@.len() && groups@[g as int]@[0].base_path@
                    == x.base_path@,
                !found ==> g == groups@.len() && forall|k: int| 0 <= k < g ==> old_views[k][0].base_path@
                    != x.base_path@,
            decreases groups@.len() - g + (if found {
                0int
            } else {
                1int
            }),
        {
            assert(old_views[g as int] == groups@[g as int]@);
            if crate::text::str_eq(groups[g][0].base_path.as_str(), x.base_path.as_str()) {
                found = true;
                break;
            }
            g = g + 1;
        }
        if found {
            let mut grp = groups.remove(g);
            let ghost old_grp = grp@;
            assert(old_grp == old_views[g as int]);
            grp.push(x);
            groups.insert(g, grp);
            proof {
                assert(variant_views(groups@) =~= old_views.update(
                    g as int,
                    old_views[g as int].push(x),
                ));
                lemma_flat_extend_group(old_views, g as int, x);
                let nv = variant_views(groups@);
                assert forall|a: int| 0 <= a < nv.len() implies (#[trigger] nv[a]).len() > 0 by {
                    if a != g {
                        assert(nv[a] == old_views[a]);
                    }
                }
                assert forall|a: int, k: int|
                    0 <= a < nv.len() && 0 <= k < nv[a].len() implies (#[trigger] nv[a][k]).base_path@
                    == nv[a][0].base_path@ by {
                    if a != g {
                        assert(nv[a] == old_views[a]);
                    } else if k < old_views[a].len() {
                        assert(nv[a][k] == old_views[a][k]);
                    }
                }
                assert forall|a: int, b: int|
                    0 <= a < nv.len() && 0 <= b < nv.len() && a != b implies (
                    #[trigger] nv[a])[0].base_path@ != (#[trigger] nv[b])[0].base_path@ by {
                    assert(nv[a][0] == old_views[a][0]);
                    assert(nv[b][0] == old_views[b][0]);
                }
                assert forall|a: int| 0 <= a < nv.len() implies #[trigger] nv[a] == members(
                    done2,
                    nv[a][0].base_path@,
                ) by {
                    assert(nv[a][0] == old_views[a][0]);
                    let key = old_views[a][0].base_path@;
                    done.lemma_filter_push(x, has_base(key));
                    assert(old_views[a] == members(done, key));
                    if a != g {
                        assert(nv[a] == old_views[a]);
                        assert(old_views[a][0].base_path@ != old_views[g as int][0].base_path@);
                    }
                }
                assert forall|j: int| 0 <= j < done2.len() implies has_group(
                    nv,
                    #[trigger] done2[j].base_path@,
                ) by {
                    if j < done.len() {
                        assert(done2[j] == done[j]);
                        assert(has_group(old_views, done[j].base_path@));
                        let h = choose|h: int|
                            0 <= h < old_views.len() && (#[trigger] old_views[h])[0].base_path@
                                == done[j].base_path@;
                        assert(nv[h][0] == old_views[h][0]);
                    } else {
                        assert(nv[g as int][0] == old_views[g as int][0]);
                    }
                }
                assert(flat(nv).to_multiset() =~= done2.to_multiset());
            }
        } else {
            let mut grp: Vec<ImageVariant> = Vec::new();
            grp.push(x);
            groups.push(grp);
            proof {
                assert(variant_views(groups@) =~= old_views.push(seq![x]));
                lemma_flat_push_group(old_views, x);
                let nv = variant_views(groups@);
                assert forall|a: int| 0 <= a < nv.len() implies (#[trigger] nv[a]).len() > 0 by {
                    if a < old_views.len() {
                        assert(nv[a] == old_views[a]);
                    }
                }
                assert forall|a: int, k: int|
                    0 <= a < nv.len() && 0 <= k < nv[a].len() implies (#[trigger] nv[a][k]).base_path@
                    == nv[a][0].base_path@ by {
                    if a < old_views.len() {
                        assert(nv[a] == old_views[a]);
                    }
                }
                assert forall|a: int, b: int|
                    0 <= a < nv.len() && 0 <= b < nv.len() && a != b implies (
                    #[trigger] nv[a])[0].base_path@ != (#[trigger] nv[b])[0].base_path@ by {
                    if a < old_views.len() {
                        assert(nv[a] == old_views[a]);
                        assert(old_views[a][0].base_path@ != x.base_path@);
                    } else {
                        assert(nv[a][0] == x);
                    }
                    if b < old_views.len() {
                        assert(nv[b] == old_views[b]);
                        assert(old_views[b][0].base_path@ != x.base_path@);
                    } else {
                        assert(nv[b][0] == x);
                    }
                }
                assert forall|j: int| 0 <= j < done.len() implies #[trigger] done[j].base_path@
                    != x.base_path@ by {
                    assert(has_group(old_views, done[j].base_path@));
                    let h = choose|h: int|
                        0 <= h < old_views.len() && (#[trigger] old_views[h])[0].base_path@
                            == done[j].base_path@;
                    assert(old_views[h][0].base_path@ != x.base_path@);
                }
                lemma_members_none(done, x.base_path@);
                assert forall|a: int| 0 <= a < nv.len() implies #[trigger] nv[a] == members(
                    done2,
                    nv[a][0].base_path@,
                ) by {
                    if a < old_views.len() {
                        assert(nv[a] == old_views[a]);
                        let key = old_views[a][0].base_path@;
                        done.lemma_filter_push(x, has_base(key));
                        assert(old_views[a] == members(done, key));
                        assert(key != x.base_path@);
                    } else {
                        assert(nv[a] == seq![x]);
                        done.lemma_filter_push(x, has_base(x.base_path@));
                        assert(members(done, x.base_path@).push(x) =~= seq![x]);
                    }
                }
                assert forall|j: int| 0 <= j < done2.len() implies has_group(
                    nv,
                    #[trigger] done2[j].base_path@,
                ) by {
                    if j < done.len() {
                        assert(done2[j] == done[j]);
                        assert(has_group(old_views, done[j].base_path@));
                        let h = choose|h: int|
                            0 <= h < old_views.len() && (#[trigger] old_views[h])[0].base_path@
                                == done[j].base_path@;
                        assert(nv[h] == old_views[h]);
                    } else {
                        assert(nv[old_views.len() as int][0] == x);
                    }
                }
                assert(flat(nv).to_multiset() =~= done2.to_multiset());
            }
        }
    }
    assert(files@.take(n as int) =~= files@);
    groups
}


/// What `regex::Regex::new(pattern)` followed by `Regex::replace(text,
/// replacement)` gives: `None` when the pattern does not compile, else the
/// text with its leftmost-first match replaced.
pub uninterp spec fn regex_replace(pattern: Seq<char>, text: Seq<char>, replacement: Seq<char>) -> Option<Seq<char>>;

/// Compiles `pattern` with `regex::Regex::new` and replaces the leftmost-first
/// match in `text` with `Regex::replace`. The result is named `regex_replace`
/// of the three arguments; nothing more is stated of it.
#[verifier::external_body]
fn regex_replace_first(pattern: &str, text: &str, replacement: &str) -> (r: Option<String>)
    ensures
        match regex_replace(pattern@, text@, replacement@) {
            Some(t) => r matches Some(s) && s@ == t,
            None => r is None,
        },
{
    match regex::Regex::new(pattern) {
        Ok(re) => Some(re.replace(text, replacement).into_owned()),
        Err(_) => None,
    }
}

/// The ordering prefix of a file name: digits and dots, optional spaces, a
/// dash and optional spaces (`1 - `, `42-`, `1.5 - `).
pub const LEADING_NUMBER_PATTERN: &'static str = "^[\\d.]+\\s*-\\s*";

/// The file name without a leading ordering prefix such as `1 - ` or `2.3-`.
pub open spec fn strip_leading_number(filename: Seq<char>) -> Seq<char> {
    match regex_replace(LEADING_NUMBER_PATTERN@, filename, Seq::empty()) {
        Some(t) => t,
        None => filename,
    }
}

/// Strips a leading ordering prefix (`1 - space_needle.jpg` gives
/// `space_needle.jpg`) by replacing the match of `LEADING_NUMBER_PATTERN` with
/// nothing.
pub fn strip_leading_number_and_dash(filename: &str) -> (r: String)
    ensures
        r@ == strip_leading_number(filename@),
{
    proof {
        reveal_strlit("");
        assert(""@ =~= Seq::<char>::empty());
    }
    match regex_replace_first(LEADING_NUMBER_PATTERN, filename, "") {
        Some(s) => s,
        None => String::from_str(filename),
    }
}

/// A byte that `urlencoding::encode` leaves as it is: an ASCII letter or
/// digit, `-`, `.`, `_` or `~`.
pub open spec fn is_url_safe(b: u8) -> bool {
    ||| (48 <= b && b <= 57)
    ||| (65 <= b && b <= 90)
    ||| (97 <= b && b <= 122)
    ||| b == 45
    ||| b == 46
    ||| b == 95
    ||| b == 126
}

/// The upper-case hexadecimal digit of `n` (below 16).
pub open spec fn hex_digit(n: int) -> char {
    if n < 10 {
        (48 + n) as char
    } else {
        (55 + n) as char
    }
}

/// Percent-encoding of a byte string: safe bytes as they are, every other
/// byte as `%` and two upper-case hexadecimal digits.
pub open spec fn percent_encode(bytes: Seq<u8>) -> Seq<char>
    decreases bytes.len(),
{
    if bytes.len() == 0 {
        Seq::empty()
    } else {
        let b = bytes.last();
        percent_encode(bytes.drop_last()) + if is_url_safe(b) {
            seq![b as char]
        } else {
            seq!['%', hex_digit((b / 16) as int), hex_digit((b % 16) as int)]
        }
    }
}

/// `urlencoding::encode`: the UTF-8 bytes of `s`, percent-encoded except
/// for ASCII letters, digits, `-`, `.`, `_` and `~`, with upper-case hex.
#[verifier::external_body]
fn url_encode(s: &str) -> (r: String)
    ensures
        r@ == percent_encode(encode_utf8(s@)),
{
    urlencoding::encode(s).into_owned()
}

/// The pieces joined with `/` between them.
pub open spec fn join_slash(pieces: Seq<Seq<char>>) -> Seq<char>
    decreases pieces.len(),
{
    if pieces.len() == 0 {
        Seq::empty()
    } else if pieces.len() == 1 {
        pieces[0]
    } else {
        join_slash(pieces.drop_last()) + seq!['/'] + pieces.last()
    }
}

/// A path with each `/`-separated segment URL-encoded and the slashes kept.
pub open spec fn encoded_path(path: Seq<char>) -> Seq<char> {
    join_slash(split_on(path, '/').map_values(|seg: Seq<char>| percent_encode(encode_utf8(seg))))
}

/// URL-encodes each segment of a path, keeping the `/` separators.
pub fn url_encode_path(path: &str) -> (r: String)
    ensures
        r@ == encoded_path(path@),
{
    let chars = to_chars(path);
    let pieces = split_chars(&chars, '/');
    let ghost enc = split_on(path@, '/').map_values(|seg: Seq<char>| percent_encode(encode_utf8(seg)));
    let mut out = String::new();
    let mut i: usize = 0;
    while i < pieces.len()
        invariant
            char_vecs(pieces@) == split_on(path@, '/'),
            enc == split_on(path@, '/').map_values(|seg: Seq<char>| percent_encode(encode_utf8(seg))),
            i <= pieces@.len(),
            out@ == join_slash(enc.take(i as int)),
        decreases pieces@.len() - i,
    {
        let seg = string_from_chars(&pieces[i], 0, pieces[i].len());
        assert(seg@ =~= char_vecs(pieces@)[i as int]);
        let e = url_encode(seg.as_str());
        let ghost before = out@;
        if i > 0 {
            out.push('/');
        }
        push_str(&mut out, e.as_str());
        proof {
            assert(enc.take(i + 1).drop_last() =~= enc.take(i as int));
            if i == 0 {
                assert(out@ =~= join_slash(enc.take(1)));
            } else {
                assert(out@ =~= join_slash(enc.take(i + 1)));
            }
        }
        i = i + 1;
    }
    assert(enc.take(pieces@.len() as int) =~= enc);
    out
}

/// The final component of a relative path (what follows its last `/`).
pub open spec fn file_name_part(rel: Seq<char>) -> Seq<char> {
    rel.skip(crate::image_cache::file_name_start(rel))
}

/// The folder part of a relative path (what precedes its last `/`), `None`
/// when the path has no folder.
pub open spec fn folder_part(rel: Seq<char>) -> Option<Seq<char>> {
    match crate::image_cache::last_index(rel, '/') {
        Some(i) => if i > 0 {
            Some(rel.take(i))
        } else {
            None
        },
        None => None,
    }
}

/// The final component of a relative path.
pub fn file_name_of(rel: &str) -> (r: &str)
    ensures
        r@ == file_name_part(rel@),
{
    let n = rel.unicode_len();
    match crate::image_cache::last_index_of(rel, '/') {
        Some(i) => {
            proof {
                crate::image_cache::lemma_last_index_bound(rel@, '/');
            }
            let r = rel.substring_char(i + 1, n);
            assert(r@ =~= rel@.skip(i + 1));
            r
        },
        None => {
            assert(rel@.skip(0) =~= rel@);
            rel
        },
    }
}

/// The folder part of a relative path, if any.
pub fn subfolder_of(rel: &str) -> (r: Option<String>)
    ensures
        match folder_part(rel@) {
            Some(f) => r matches Some(s) && s@ == f,
            None => r is None,
        },
{
    match crate::image_cache::last_index_of(rel, '/') {
        Some(i) => {
            proof {
                crate::image_cache::lemma_last_index_bound(rel@, '/');
            }
            if i > 0 {
                let f = rel.substring_char(0, i);
                assert(f@ =~= rel@.take(i as int));
                Some(String::from_str(f))
            } else {
                None
            }
        },
        None => None,
    }
}

/// The file name with its ordering prefix and every trailing `.{ext}` removed.
pub open spec fn display_stem(filename: Seq<char>, ext: Seq<char>) -> Seq<char> {
    crate::text::trim_end_matches(strip_leading_number(filename), seq!['.'] + ext)
}

/// The URL slug of a photo: the display stem lower-cased, with spaces and
/// underscores turned into dashes.
pub open spec fn slug_of(filename: Seq<char>, ext: Seq<char>) -> Seq<char> {
    replace2(lowercase(display_stem(filename, ext)), ' ', '_', '-')
}

/// The title of a photo: the display stem with dashes and underscores turned
/// into spaces.
pub open spec fn title_of(filename: Seq<char>, ext: Seq<char>) -> Seq<char> {
    replace2(display_stem(filename, ext), '-', '_', ' ')
}

fn stem(filename: &str, ext: &str) -> (r: String)
    ensures
        r@ == display_stem(filename@, ext@),
{
    let stripped = strip_leading_number_and_dash(filename);
    let mut dotted = String::new();
    dotted.push('.');
    push_str(&mut dotted, ext);
    assert(dotted@ =~= seq!['.'] + ext@);
    String::from_str(crate::text::trim_end_matches_str(stripped.as_str(), dotted.as_str()))
}

/// The slug of a photo file with the given extension.
pub fn photo_slug(filename: &str, ext: &str) -> (r: String)
    ensures
        r@ == slug_of(filename@, ext@),
{
    let st = stem(filename, ext);
    let lower = to_lowercase(st.as_str());
    replace_chars(lower.as_str(), ' ', '_', '-')
}

/// The title of a photo file with the given extension.
pub fn photo_title(filename: &str, ext: &str) -> (r: String)
    ensures
        r@ == title_of(filename@, ext@),
{
    let st = stem(filename, ext);
    replace_chars(st.as_str(), '-', '_', ' ')
}

/// `/images/compressed/{encoded path}?width={w}&quality={q}`.
pub open spec fn compressed_url(rel: Seq<char>, width: u32, quality: u8) -> Seq<char> {
    "/images/compressed/"@ + encoded_path(rel) + "?width="@ + decimal(width as nat)
        + "&quality="@ + decimal(quality as nat)
}

/// `/images/{encoded path}`.
pub open spec fn original_url(rel: Seq<char>) -> Seq<char> {
    "/images/"@ + encoded_path(rel)
}

/// The URL of the compressed (WebP) rendition of an image.
pub fn compressed_image_url(rel: &str, width: u32, quality: u8) -> (r: String)
    ensures
        r@ == compressed_url(rel@, width, quality),
{
    let enc = url_encode_path(rel);
    let mut r = String::new();
    push_str(&mut r, "/images/compressed/");
    push_str(&mut r, enc.as_str());
    push_str(&mut r, "?width=");
    push_decimal(&mut r, width as u64);
    push_str(&mut r, "&quality=");
    push_decimal(&mut r, quality as u64);
    assert(r@ =~= compressed_url(rel@, width, quality));
    r
}

/// The URL of the original image.
pub fn original_image_url(rel: &str) -> (r: String)
    ensures
        r@ == original_url(rel@),
{
    let enc = url_encode_path(rel);
    let mut r = String::new();
    push_str(&mut r, "/images/");
    push_str(&mut r, enc.as_str());
    assert(r@ =~= original_url(rel@));
    r
}


/// The variants of `group` other than the primary one (those at another path),
/// in order.
pub open spec fn alternatives(group: Seq<ImageVariant>, primary: Seq<char>) -> Seq<ImageVariant>
    decreases group.len(),
{
    if group.len() == 0 {
        Seq::empty()
    } else {
        alternatives(group.drop_last(), primary) + if group.last().relative_path@ != primary {
            seq![group.last()]
        } else {
            Seq::empty()
        }
    }
}

/// The `<picture>` sources of `alts`: compressed WebP renditions.
pub open spec fn sources_match(sources: Seq<ImageSource>, alts: Seq<ImageVariant>, width: u32, quality: u8) -> bool {
    &&& sources.len() == alts.len()
    &&& forall|i: int|
        0 <= i < alts.len() ==> (#[trigger] sources[i]).url@ == compressed_url(
            alts[i].relative_path@,
            width,
            quality,
        ) && sources[i].mime_type@ == "image/webp"@
}

/// The full-resolution sources of `alts`, with the MIME type of each format.
pub open spec fn original_sources_match(sources: Seq<ImageSource>, alts: Seq<ImageVariant>) -> bool {
    &&& sources.len() == alts.len()
    &&& forall|i: int|
        0 <= i < alts.len() ==> (#[trigger] sources[i]).url@ == original_url(alts[i].relative_path@)
            && sources[i].mime_type@ == mime_of(alts[i].extension@)
}

/// Each alternative format of a photo is offered twice: as a compressed
/// rendition labelled `image/webp`, and in full resolution labelled with the
/// MIME type of its own format (`image/jpeg` for `.jpg` and `.jpeg`,
/// `image/png`, `image/webp`, `image/gif`, `image/jxl`, `image/avif`).
pub proof fn lemma_sources_carry_their_format(
    p: PhotoInfo,
    group: Seq<ImageVariant>,
    gallery_name: Seq<char>,
    exif: crate::exif::ExifData,
    o: PhotoOverrides,
    width: u32,
    quality: u8,
    k: int,
)
    requires
        photo_matches_with(p, group, gallery_name, exif, o, width, quality),
        0 <= k < alternatives(group, group[0].relative_path@).len(),
    ensures
        ({
            let e = alternatives(group, group[0].relative_path@)[k].extension@;
            let m = p.original_sources@[k].mime_type@;
            &&& p.sources@[k].mime_type@ == "image/webp"@
            &&& (e == "jpg"@ || e == "jpeg"@) ==> m == "image/jpeg"@
            &&& e == "png"@ ==> m == "image/png"@
            &&& e == "webp"@ ==> m == "image/webp"@
            &&& e == "gif"@ ==> m == "image/gif"@
            &&& e == "jxl"@ ==> m == "image/jxl"@
            &&& e == "avif"@ ==> m == "image/avif"@
        }),
{
    reveal_strlit("image/webp");
    reveal_strlit("jpg");
    reveal_strlit("jpeg");
    reveal_strlit("png");
    reveal_strlit("webp");
    reveal_strlit("gif");
    reveal_strlit("jxl");
    reveal_strlit("avif");
    reveal_strlit("image/jpeg");
    reveal_strlit("image/png");
    reveal_strlit("image/gif");
    reveal_strlit("image/jxl");
    reveal_strlit("image/avif");
    assert("jpg"@ =~= seq!['j', 'p', 'g']);
    assert("jpeg"@ =~= seq!['j', 'p', 'e', 'g']);
    assert("png"@ =~= seq!['p', 'n', 'g']);
    assert("webp"@ =~= seq!['w', 'e', 'b', 'p']);
    assert("gif"@ =~= seq!['g', 'i', 'f']);
    assert("jxl"@ =~= seq!['j', 'x', 'l']);
    assert("avif"@ =~= seq!['a', 'v', 'i', 'f']);
    assert("image/jpeg"@ =~= seq!['i', 'm', 'a', 'g', 'e', '/', 'j', 'p', 'e', 'g']);
    assert("image/png"@ =~= seq!['i', 'm', 'a', 'g', 'e', '/', 'p', 'n', 'g']);
    assert("image/webp"@ =~= seq!['i', 'm', 'a', 'g', 'e', '/', 'w', 'e', 'b', 'p']);
    assert("image/gif"@ =~= seq!['i', 'm', 'a', 'g', 'e', '/', 'g', 'i', 'f']);
    assert("image/jxl"@ =~= seq!['i', 'm', 'a', 'g', 'e', '/', 'j', 'x', 'l']);
    assert("image/avif"@ =~= seq!['i', 'm', 'a', 'g', 'e', '/', 'a', 'v', 'i', 'f']);
    let alts = alternatives(group, group[0].relative_path@);
    assert(p.original_sources@[k].mime_type@ == mime_of(alts[k].extension@));
    assert(p.sources@[k].mime_type@ == "image/webp"@);
}

/// What a photo built from the variant group `group` (primary first), in the
/// gallery `gallery_name`, with metadata `exif` and image preset
/// `(width, quality)` holds, before any override.
pub open spec fn photo_matches(
    p: PhotoInfo,
    group: Seq<ImageVariant>,
    gallery_name: Seq<char>,
    exif: crate::exif::ExifData,
    width: u32,
    quality: u8,
) -> bool {
    photo_matches_with(p, group, gallery_name, exif, no_overrides_spec(), width, quality)
}

/// No override at all.
pub open spec fn no_overrides_spec() -> PhotoOverrides {
    PhotoOverrides { title: None, lens_model: None, focal_point: None }
}

/// What a photo built as `photo_matches` says holds, with the photo's own
/// settings `o` replacing the title, the lens and the focal point where
/// they give one.
pub open spec fn photo_matches_with(
    p: PhotoInfo,
    group: Seq<ImageVariant>,
    gallery_name: Seq<char>,
    exif: crate::exif::ExifData,
    o: PhotoOverrides,
    width: u32,
    quality: u8,
) -> bool {
    let primary = group[0];
    let filename = file_name_part(primary.relative_path@);
    &&& p.url@ == compressed_url(primary.relative_path@, width, quality)
    &&& p.original_url@ == original_url(primary.relative_path@)
    &&& sources_match(p.sources@, alternatives(group, primary.relative_path@), width, quality)
    &&& original_sources_match(p.original_sources@, alternatives(group, primary.relative_path@))
    &&& p.title@ == match o.title {
        Some(t) => t@,
        None => title_of(filename, primary.file_extension@),
    }
    &&& p.filename@ == filename
    &&& p.slug@ == slug_of(filename, primary.file_extension@)
    &&& p.gallery_name@ == gallery_name
    &&& crate::exif::opt_view(p.subfolder) == folder_part(primary.relative_path@)
    &&& p.width == exif.width
    &&& p.height == exif.height
    &&& crate::exif::opt_view(p.date_taken) == crate::exif::opt_view(exif.date_taken)
    &&& crate::exif::opt_view(p.camera_make) == crate::exif::opt_view(exif.camera_make)
    &&& crate::exif::opt_view(p.camera_model) == crate::exif::opt_view(exif.camera_model)
    &&& crate::exif::opt_view(p.lens_model) == match o.lens_model {
        Some(l) => Some(l@),
        None => crate::exif::opt_view(exif.lens_model),
    }
    &&& crate::exif::opt_view(p.focal_length) == crate::exif::opt_view(exif.focal_length)
    &&& crate::exif::opt_view(p.aperture) == crate::exif::opt_view(exif.aperture)
    &&& crate::exif::opt_view(p.shutter_speed) == crate::exif::opt_view(exif.shutter_speed)
    &&& crate::exif::opt_view(p.iso) == crate::exif::opt_view(exif.iso)
    &&& crate::exif::opt_view(p.copyright) == crate::exif::opt_view(exif.copyright)
    &&& p.focal_point == o.focal_point
}

fn copy_string_opt(o: &Option<String>) -> (r: Option<String>)
    ensures
        crate::exif::opt_view(r) == crate::exif::opt_view(*o),
{
    match o {
        Some(s) => Some(String::from_str(s.as_str())),
        None => None,
    }
}

/// The photo for a group of variants sorted by priority (the first is the
/// primary image), with its metadata and the image preset its URLs ask for.
pub fn build_photo_info(
    group: &Vec<ImageVariant>,
    gallery_name: &str,
    exif: &crate::exif::ExifData,
    width: u32,
    quality: u8,
) -> (r: PhotoInfo)
    requires
        group@.len() > 0,
    ensures
        photo_matches(r, group@, gallery_name@, *exif, width, quality),
{
    let primary = &group[0];
    let primary_rel = primary.relative_path.as_str();
    let filename = file_name_of(primary_rel);
    let mut sources: Vec<ImageSource> = Vec::new();
    let mut original_sources: Vec<ImageSource> = Vec::new();
    let mut i: usize = 0;
    proof {
        reveal_strlit("image/webp");
    }
    while i < group.len()
        invariant
            group@.len() > 0,
            primary_rel@ == group@[0].relative_path@,
            i <= group@.len(),
            sources_match(sources@, alternatives(group@.take(i as int), primary_rel@), width, quality),
            original_sources_match(original_sources@, alternatives(group@.take(i as int), primary_rel@)),
        decreases group@.len() - i,
    {
        let v = &group[i];
        let ghost alts = alternatives(group@.take(i as int), primary_rel@);
        assert(group@.take(i + 1).drop_last() =~= group@.take(i as int));
        assert(group@.take(i + 1).last() == group@[i as int]);
        if !crate::text::str_eq(v.relative_path.as_str(), primary_rel) {
            let url = compressed_image_url(v.relative_path.as_str(), width, quality);
            let original = original_image_url(v.relative_path.as_str());
            let mime = get_mime_type(v.extension.as_str());
            sources.push(ImageSource { url, mime_type: String::from_str("image/webp") });
            original_sources.push(ImageSource { url: original, mime_type: String::from_str(mime) });
            proof {
                let na = alternatives(group@.take(i + 1), primary_rel@);
                assert(na =~= alts.push(group@[i as int]));
                assert forall|k: int| 0 <= k < na.len() implies (#[trigger] sources@[k]).url@
                    == compressed_url(na[k].relative_path@, width, quality) && sources@[k].mime_type@
                    == "image/webp"@ by {
                }
            }
        } else {
            assert(alternatives(group@.take(i + 1), primary_rel@) =~= alts);
        }
        i = i + 1;
    }
    assert(group@.take(group@.len() as int) =~= group@);
    PhotoInfo {
        url: compressed_image_url(primary_rel, width, quality),
        original_url: original_image_url(primary_rel),
        sources,
        original_sources,
        title: photo_title(filename, primary.file_extension.as_str()),
        filename: String::from_str(filename),
        slug: photo_slug(filename, primary.file_extension.as_str()),
        gallery_name: String::from_str(gallery_name),
        subfolder: subfolder_of(primary_rel),
        width: exif.width,
        height: exif.height,
        date_taken: copy_string_opt(&exif.date_taken),
        camera_make: copy_string_opt(&exif.camera_make),
        camera_model: copy_string_opt(&exif.camera_model),
        lens_model: copy_string_opt(&exif.lens_model),
        focal_length: copy_string_opt(&exif.focal_length),
        aperture: copy_string_opt(&exif.aperture),
        shutter_speed: copy_string_opt(&exif.shutter_speed),
        iso: copy_string_opt(&exif.iso),
        copyright: copy_string_opt(&exif.copyright),
        focal_point: None,
    }
}

/// A photo with its own settings applied: each override that is given
/// replaces the title, the lens or the focal point; every other field stays.
pub open spec fn overridden(r: PhotoInfo, p: PhotoInfo, o: PhotoOverrides) -> bool {
    &&& r.url == p.url
    &&& r.original_url == p.original_url
    &&& r.sources == p.sources
    &&& r.original_sources == p.original_sources
    &&& r.title == match o.title {
        Some(t) => t,
        None => p.title,
    }
    &&& r.filename == p.filename
    &&& r.slug == p.slug
    &&& r.gallery_name == p.gallery_name
    &&& r.subfolder == p.subfolder
    &&& r.width == p.width
    &&& r.height == p.height
    &&& r.date_taken == p.date_taken
    &&& r.camera_make == p.camera_make
    &&& r.camera_model == p.camera_model
    &&& r.lens_model == match o.lens_model {
        Some(l) => Some(l),
        None => p.lens_model,
    }
    &&& r.focal_length == p.focal_length
    &&& r.aperture == p.aperture
    &&& r.shutter_speed == p.shutter_speed
    &&& r.iso == p.iso
    &&& r.copyright == p.copyright
    &&& r.focal_point == match o.focal_point {
        Some(f) => Some(f),
        None => p.focal_point,
    }
}

/// Applies a photo's own settings (its TOML file) to the photo.
pub fn apply_overrides(p: PhotoInfo, o: PhotoOverrides) -> (r: PhotoInfo)
    ensures
        overridden(r, p, o),
{
    let mut r = p;
    if let Some(t) = o.title {
        r.title = t;
    }
    if let Some(l) = o.lens_model {
        r.lens_model = Some(l);
    }
    if let Some(f) = o.focal_point {
        r.focal_point = Some(f);
    }
    r
}

/// Settings that override nothing.
pub fn no_overrides() -> (r: PhotoOverrides)
    ensures
        r == no_overrides_spec(),
{
    PhotoOverrides { title: None, lens_model: None, focal_point: None }
}

fn copy_overrides(o: &PhotoOverrides) -> (r: PhotoOverrides)
    ensures
        opt_view(r.title) == opt_view(o.title),
        opt_view(r.lens_model) == opt_view(o.lens_model),
        r.focal_point == o.focal_point,
{
    PhotoOverrides {
        title: copy_string_opt(&o.title),
        lens_model: copy_string_opt(&o.lens_model),
        focal_point: o.focal_point,
    }
}


/// The order of photos in a gallery: photos at the gallery root first, then
/// by subfolder, then by file name.
pub open spec fn photo_le(a: PhotoInfo, b: PhotoInfo) -> bool {
    match (a.subfolder, b.subfolder) {
        (Some(x), Some(y)) => if x@ == y@ {
            lex_le(a.filename@, b.filename@)
        } else {
            lex_le(x@, y@)
        },
        (Some(_), None) => false,
        (None, Some(_)) => true,
        (None, None) => lex_le(a.filename@, b.filename@),
    }
}

/// `s` is in photo order.
pub open spec fn photos_sorted(s: Seq<PhotoInfo>) -> bool {
    forall|i: int, j: int| 0 <= i < j < s.len() ==> photo_le(#[trigger] s[i], #[trigger] s[j])
}

/// The photo order is total.
pub proof fn lemma_photo_le_total(a: PhotoInfo, b: PhotoInfo)
    ensures
        photo_le(a, b) || photo_le(b, a),
{
    lemma_lex_le_total(a.filename@, b.filename@);
    if let (Some(x), Some(y)) = (a.subfolder, b.subfolder) {
        lemma_lex_le_total(x@, y@);
    }
}

/// The photo order is transitive.
pub proof fn lemma_photo_le_transitive(a: PhotoInfo, b: PhotoInfo, c: PhotoInfo)
    requires
        photo_le(a, b),
        photo_le(b, c),
    ensures
        photo_le(a, c),
{
    match (a.subfolder, b.subfolder, c.subfolder) {
        (Some(x), Some(y), Some(z)) => {
            lemma_lex_le_total(x@, y@);
            lemma_lex_le_total(y@, z@);
            lemma_lex_le_total(x@, z@);
            if x@ == y@ && y@ == z@ {
                lemma_lex_le_transitive(a.filename@, b.filename@, c.filename@);
            } else if x@ == z@ {
                lemma_lex_le_transitive(y@, z@, x@);
            } else if x@ == y@ {
            } else if y@ == z@ {
            } else {
                lemma_lex_le_transitive(x@, y@, z@);
            }
        },
        (None, None, None) => {
            lemma_lex_le_transitive(a.filename@, b.filename@, c.filename@);
        },
        _ => {},
    }
}

/// Whether `a` comes no later than `b` in photo order.
pub fn photo_order_le(a: &PhotoInfo, b: &PhotoInfo) -> (r: bool)
    ensures
        r == photo_le(*a, *b),
{
    match (&a.subfolder, &b.subfolder) {
        (Some(x), Some(y)) => if crate::text::str_eq(x.as_str(), y.as_str()) {
            str_le(a.filename.as_str(), b.filename.as_str())
        } else {
            str_le(x.as_str(), y.as_str())
        },
        (Some(_), None) => false,
        (None, Some(_)) => true,
        (None, None) => str_le(a.filename.as_str(), b.filename.as_str()),
    }
}

/// The photo order as a relation.
pub open spec fn photo_order() -> spec_fn(PhotoInfo, PhotoInfo) -> bool {
    |a: PhotoInfo, b: PhotoInfo| photo_le(a, b)
}

/// The photos in photo order (root photos first, then by subfolder, then by
/// file name); photos equal in that order keep their order.
pub fn sort_photos(photos: Vec<PhotoInfo>) -> (r: Vec<PhotoInfo>)
    ensures
        photos_sorted(r@),
        r@.to_multiset() == photos@.to_multiset(),
        stably_rearranged(photos@, r@, photo_order()),
{
    broadcast use vstd::seq_lib::group_to_multiset_ensures;

    let mut input = photos;
    let mut out: Vec<PhotoInfo> = Vec::new();
    let ghost mut perm: Seq<int> = Seq::empty();
    proof {
        assert(out@.to_multiset().add(input@.to_multiset()) =~= photos@.to_multiset());
        assert(input@ =~= photos@.take(input@.len() as int));
    }
    while input.len() > 0
        invariant
            photos_sorted(out@),
            out@.to_multiset().add(input@.to_multiset()) == photos@.to_multiset(),
            input@ == photos@.take(input@.len() as int),
            out@.len() + input@.len() == photos@.len(),
            arranged_from(photos@, out@, perm, input@.len() as int, photo_order()),
        decreases input@.len(),
    {
        let ghost before_in = input@;
        let ghost before_out = out@;
        let ghost k = input@.len() as int;
        let x = input.pop().unwrap();
        assert(before_in =~= input@.push(x));
        assert(input@ =~= photos@.take(k - 1));
        assert(x == photos@[k - 1]);
        let mut p: usize = 0;
        while p < out.len() && !photo_order_le(&x, &out[p])
            invariant
                out@ == before_out,
                p <= out@.len(),
                forall|k: int| 0 <= k < p ==> !photo_le(x, #[trigger] out@[k]),
            decreases out@.len() - p,
        {
            p = p + 1;
        }
        out.insert(p, x);
        proof {
            lemma_arranged_insert(photos@, before_out, perm, k, p as int, photo_order());
            perm = perm.insert(p as int, k - 1);
            assert forall|i: int, j: int| 0 <= i < j < out@.len() implies photo_le(
                #[trigger] out@[i],
                #[trigger] out@[j],
            ) by {
                if j < p {
                } else if i < p && j == p {
                    lemma_photo_le_total(x, before_out[i]);
                } else if i < p && j > p {
                    assert(out@[j] == before_out[j - 1]);
                } else if i == p {
                    assert(out@[j] == before_out[j - 1]);
                    assert(photo_le(x, before_out[p as int]));
                    if j - 1 > p {
                        assert(photo_le(before_out[p as int], before_out[j - 1]));
                        lemma_photo_le_transitive(x, before_out[p as int], before_out[j - 1]);
                    }
                } else {
                    assert(out@[i] == before_out[i - 1]);
                    assert(out@[j] == before_out[j - 1]);
                }
            }
            assert(out@ == before_out.insert(p as int, x));
            vstd::seq_lib::to_multiset_insert(before_out, p as int, x);
            vstd::seq_lib::to_multiset_build(input@, x);
            assert(out@.to_multiset().add(input@.to_multiset()) =~= before_out.to_multiset().add(
                before_in.to_multiset(),
            ));
        }
    }
    proof {
        assert(input@.to_multiset() =~= Multiset::empty());
        assert(out@.to_multiset() =~= photos@.to_multiset());
        assert(stable_rearrangement(photos@, out@, perm, photo_order()));
    }
    out
}


/// Every group is in priority order.
pub open spec fn groups_sorted(ss: Seq<Seq<ImageVariant>>) -> bool {
    forall|g: int| 0 <= g < ss.len() ==> variants_sorted(#[trigger] ss[g])
}

proof fn lemma_flat_push_multiset(ss: Seq<Seq<ImageVariant>>, a: Seq<ImageVariant>)
    ensures
        flat(ss.push(a)).to_multiset() == flat(ss).to_multiset().add(a.to_multiset()),
{
    assert(ss.push(a).drop_last() =~= ss);
    vstd::seq_lib::lemma_multiset_commutative(flat(ss), a);
}

/// The image files of a folder as photos: groups of variants of one base
/// path, each in priority order (its primary image first) and, among
/// variants of equal priority, in the order the files came.
pub fn photo_groups(files: Vec<ImageVariant>) -> (r: Vec<Vec<ImageVariant>>)
    ensures
        well_grouped(variant_views(r@)),
        groups_sorted(variant_views(r@)),
        flat(variant_views(r@)).to_multiset() == files@.to_multiset(),
        forall|g: int|
            0 <= g < r@.len() ==> stably_rearranged(
                members(files@, variant_views(r@)[g][0].base_path@),
                #[trigger] variant_views(r@)[g],
                variant_order(),
            ),
        forall|j: int| 0 <= j < files@.len() ==> has_group(variant_views(r@), #[trigger] files@[j].base_path@),
{
    broadcast use vstd::seq_lib::group_to_multiset_ensures;

    let mut groups = group_variants(files);
    let ghost orig = variant_views(groups@);
    let mut rev: Vec<Vec<ImageVariant>> = Vec::new();
    while groups.len() > 0
        invariant
            well_grouped(orig),
            variant_views(groups@) == orig.take(groups@.len() as int),
            groups@.len() + rev@.len() == orig.len(),
            forall|k: int|
                0 <= k < rev@.len() ==> variants_sorted(#[trigger] rev@[k]@) && rev@[k]@.to_multiset()
                    == orig[orig.len() - 1 - k].to_multiset() && stably_rearranged(
                    orig[orig.len() - 1 - k],
                    rev@[k]@,
                    variant_order(),
                ),
        decreases groups@.len(),
    {
        let ghost before = groups@;
        let g = groups.pop().unwrap();
        assert(variant_views(groups@) =~= orig.take(groups@.len() as int));
        assert(before[groups@.len() as int] == g);
        assert(variant_views(before)[groups@.len() as int] == g@);
        assert(g@ == orig[groups@.len() as int]);
        let sorted = sort_variants(g);
        rev.push(sorted);
    }
    let mut out: Vec<Vec<ImageVariant>> = Vec::new();
    while rev.len() > 0
        invariant
            well_grouped(orig),
            out@.len() + rev@.len() == orig.len(),
            forall|k: int|
                0 <= k < rev@.len() ==> variants_sorted(#[trigger] rev@[k]@) && rev@[k]@.to_multiset()
                    == orig[orig.len() - 1 - k].to_multiset() && stably_rearranged(
                    orig[orig.len() - 1 - k],
                    rev@[k]@,
                    variant_order(),
                ),
            forall|k: int|
                0 <= k < out@.len() ==> variants_sorted(#[trigger] out@[k]@) && out@[k]@.to_multiset()
                    == orig[k].to_multiset() && stably_rearranged(orig[k], out@[k]@, variant_order()),
            flat(variant_views(out@)).to_multiset() == flat(orig.take(out@.len() as int)).to_multiset(),
        decreases rev@.len(),
    {
        let ghost n = out@.len();
        let ghost old_out = variant_views(out@);
        let g = rev.pop().unwrap();
        assert(g@.to_multiset() == orig[n as int].to_multiset());
        out.push(g);
        proof {
            assert(variant_views(out@) =~= old_out.push(g@));
            assert(orig.take(n + 1int) =~= orig.take(n as int).push(orig[n as int]));
            lemma_flat_push_multiset(old_out, g@);
            lemma_flat_push_multiset(orig.take(n as int), orig[n as int]);
        }
    }
    proof {
        assert(orig.take(orig.len() as int) =~= orig);
        let nv = variant_views(out@);
        assert forall|g: int| 0 <= g < nv.len() implies (#[trigger] nv[g]).len() > 0 by {
            assert(nv[g].to_multiset().len() == orig[g].to_multiset().len());
        }
        assert forall|g: int, k: int|
            0 <= g < nv.len() && 0 <= k < nv[g].len() implies (#[trigger] nv[g][k]).base_path@
            == nv[g][0].base_path@ by {
            assert(nv[g].to_multiset().count(nv[g][k]) > 0);
            assert(orig[g].contains(nv[g][k]));
            assert(nv[g].to_multiset().count(nv[g][0]) > 0);
            assert(orig[g].contains(nv[g][0]));
            let a = choose|a: int| 0 <= a < orig[g].len() && orig[g][a] == nv[g][k];
            let b = choose|b: int| 0 <= b < orig[g].len() && orig[g][b] == nv[g][0];
            assert(orig[g][a].base_path@ == orig[g][0].base_path@);
            assert(orig[g][b].base_path@ == orig[g][0].base_path@);
        }
        assert forall|g1: int, g2: int|
            0 <= g1 < nv.len() && 0 <= g2 < nv.len() && g1 != g2 implies (
            #[trigger] nv[g1])[0].base_path@ != (#[trigger] nv[g2])[0].base_path@ by {
            assert(nv[g1].to_multiset().count(nv[g1][0]) > 0);
            assert(orig[g1].contains(nv[g1][0]));
            assert(nv[g2].to_multiset().count(nv[g2][0]) > 0);
            assert(orig[g2].contains(nv[g2][0]));
            let a = choose|a: int| 0 <= a < orig[g1].len() && orig[g1][a] == nv[g1][0];
            let b = choose|b: int| 0 <= b < orig[g2].len() && orig[g2][b] == nv[g2][0];
            assert(orig[g1][a].base_path@ == orig[g1][0].base_path@);
            assert(orig[g2][b].base_path@ == orig[g2][0].base_path@);
        }
        assert forall|g: int| 0 <= g < nv.len() implies variants_sorted(#[trigger] nv[g]) by {
            assert(nv[g] == out@[g]@);
        }
        assert forall|g: int| 0 <= g < out@.len() implies stably_rearranged(
            members(files@, nv[g][0].base_path@),
            #[trigger] variant_views(out@)[g],
            variant_order(),
        ) by {
            assert(nv[g] == out@[g]@);
            let perm = choose|perm: Seq<int>| stable_rearrangement(orig[g], out@[g]@, perm, variant_order());
            assert(nv[g][0] == orig[g][perm[0]]);
            assert(orig[g] == members(files@, orig[g][0].base_path@));
        }
        assert forall|j: int| 0 <= j < files@.len() implies has_group(nv, #[trigger] files@[j].base_path@) by {
            assert(has_group(orig, files@[j].base_path@));
            let h = choose|h: int| 0 <= h < orig.len() && (#[trigger] orig[h])[0].base_path@ == files@[j].base_path@;
            let perm = choose|perm: Seq<int>| stable_rearrangement(orig[h], out@[h]@, perm, variant_order());
            assert(nv[h] == out@[h]@);
            assert(nv[h][0] == orig[h][perm[0]]);
        }
    }
    out
}


/// One photo found on disk: its variants in priority order (as `photo_groups`
/// gives them) and the metadata of the primary one.
#[derive(Clone, Debug, PartialEq)]
pub struct ScannedPhoto {
    pub variants: Vec<ImageVariant>,
    pub exif: ExifData,
    /// The settings of the photo's own TOML file, if it has one.
    pub overrides: PhotoOverrides,
}

/// A gallery folder: its directory name and the photos found below it.
#[derive(Clone, Debug, PartialEq)]
pub struct ScannedGallery {
    pub dir_name: String,
    pub photos: Vec<ScannedPhoto>,
}

/// The scanned photos that have at least one variant, in order.
pub open spec fn nonempty_photos(s: Seq<ScannedPhoto>) -> Seq<ScannedPhoto>
    decreases s.len(),
{
    if s.len() == 0 {
        Seq::empty()
    } else {
        nonempty_photos(s.drop_last()) + if s.last().variants@.len() > 0 {
            seq![s.last()]
        } else {
            Seq::empty()
        }
    }
}

/// `out` holds, in order, the photos built from the non-empty entries of
/// `scanned` in gallery `gallery` with the image preset `params`.
pub open spec fn built_from(
    out: Seq<PhotoInfo>,
    scanned: Seq<ScannedPhoto>,
    gallery: Seq<char>,
    params: (u32, u8),
) -> bool {
    let found = nonempty_photos(scanned);
    &&& out.len() == found.len()
    &&& forall|k: int|
        0 <= k < found.len() ==> photo_matches_with(
            #[trigger] out[k],
            found[k].variants@,
            gallery,
            found[k].exif,
            found[k].overrides,
            params.0,
            params.1,
        )
}

/// `home`, the gallery shown on the landing page.
pub open spec fn home_gallery() -> Seq<char> {
    seq!['h', 'o', 'm', 'e']
}

/// The URL slug of a gallery directory: lower-cased, spaces turned into dashes.
pub open spec fn gallery_slug_of(dir_name: Seq<char>) -> Seq<char> {
    replace2(lowercase(dir_name), ' ', ' ', '-')
}

/// The URL slug of a gallery directory.
pub fn gallery_slug(dir_name: &str) -> (r: String)
    ensures
        r@ == gallery_slug_of(dir_name@),
{
    let lower = to_lowercase(dir_name);
    replace_chars(lower.as_str(), ' ', ' ', '-')
}

fn append_photos(
    scanned: &Vec<ScannedPhoto>,
    gallery: &str,
    params: (u32, u8),
    photos: &mut Vec<PhotoInfo>,
)
    ensures
        old(photos)@.len() <= final(photos)@.len(),
        final(photos)@.take(old(photos)@.len() as int) == old(photos)@,
        built_from(final(photos)@.skip(old(photos)@.len() as int), scanned@, gallery@, params),
{
    let ghost start = photos@.len();
    let ghost prefix = photos@;
    let mut i: usize = 0;
    assert(photos@.skip(start as int) =~= Seq::<PhotoInfo>::empty());
    assert(scanned@.take(0) =~= Seq::<ScannedPhoto>::empty());
    assert(photos@.take(start as int) =~= prefix);
    while i < scanned.len()
        invariant
            i <= scanned@.len(),
            start <= photos@.len(),
            photos@.take(start as int) == prefix,
            prefix.len() == start,
            built_from(photos@.skip(start as int), scanned@.take(i as int), gallery@, params),
        decreases scanned@.len() - i,
    {
        let ghost before = photos@;
        let sp = &scanned[i];
        assert(scanned@.take(i + 1).drop_last() =~= scanned@.take(i as int));
        assert(scanned@.take(i + 1).last() == scanned@[i as int]);
        if sp.variants.len() > 0 {
            let base = build_photo_info(&sp.variants, gallery, &sp.exif, params.0, params.1);
            let o = copy_overrides(&sp.overrides);
            let p = apply_overrides(base, o);
            photos.push(p);
            proof {
                assert(photos@.take(start as int) =~= prefix);
                let found = nonempty_photos(scanned@.take(i + 1));
                assert(found =~= nonempty_photos(scanned@.take(i as int)).push(scanned@[i as int]));
                assert(photos@.skip(start as int) =~= before.skip(start as int).push(p));
                let out = photos@.skip(start as int);
                assert forall|k: int| 0 <= k < found.len() implies photo_matches_with(
                    #[trigger] out[k],
                    found[k].variants@,
                    gallery@,
                    found[k].exif,
                    found[k].overrides,
                    params.0,
                    params.1,
                ) by {
                    if k < found.len() - 1 {
                        assert(out[k] == before.skip(start as int)[k]);
                    }
                }
            }
        } else {
            assert(nonempty_photos(scanned@.take(i + 1)) =~= nonempty_photos(
                scanned@.take(i as int),
            ));
        }
        i = i + 1;
    }
    assert(scanned@.take(scanned@.len() as int) =~= scanned@);
}

/// The photos of the home gallery, appended to `photos` in the order found.
pub fn find_images_recursive(
    scanned: &Vec<ScannedPhoto>,
    presets: &Vec<(u32, u8)>,
    photos: &mut Vec<PhotoInfo>,
)
    ensures
        old(photos)@.len() <= final(photos)@.len(),
        final(photos)@.take(old(photos)@.len() as int) == old(photos)@,
        built_from(
            final(photos)@.skip(old(photos)@.len() as int),
            scanned@,
            home_gallery(),
            default_params_of(presets@),
        ),
{
    let params = get_default_image_params(presets);
    proof {
        reveal_strlit("home");
        assert("home"@ =~= home_gallery());
    }
    append_photos(scanned, "home", params, photos);
}

/// The photos of the gallery in directory `dir_name`, appended to `photos` in
/// the order found; their gallery is the directory's slug.
pub fn find_images_for_gallery(
    dir_name: &str,
    scanned: &Vec<ScannedPhoto>,
    presets: &Vec<(u32, u8)>,
    photos: &mut Vec<PhotoInfo>,
)
    ensures
        old(photos)@.len() <= final(photos)@.len(),
        final(photos)@.take(old(photos)@.len() as int) == old(photos)@,
        built_from(
            final(photos)@.skip(old(photos)@.len() as int),
            scanned@,
            gallery_slug_of(dir_name@),
            default_params_of(presets@),
        ),
{
    let params = get_default_image_params(presets);
    let slug = gallery_slug(dir_name);
    append_photos(scanned, slug.as_str(), params, photos);
}

/// The photos of the home gallery in photo order.
pub fn load_home_photos(scanned: &Vec<ScannedPhoto>, presets: &Vec<(u32, u8)>) -> (r: Vec<
    PhotoInfo,
>)
    ensures
        photos_sorted(r@),
        exists|built: Seq<PhotoInfo>|
            built_from(built, scanned@, home_gallery(), default_params_of(presets@))
                && #[trigger] built.to_multiset() == r@.to_multiset()
                && stably_rearranged(built, r@, photo_order()),
{
    let mut photos: Vec<PhotoInfo> = Vec::new();
    find_images_recursive(scanned, presets, &mut photos);
    assert(photos@.skip(0) =~= photos@);
    let ghost built = photos@;
    let r = sort_photos(photos);
    assert(built.to_multiset() == r@.to_multiset());
    r
}

/// The photos of the gallery whose slug is `gallery_name`, in photo order;
/// `None` when no gallery directory has that slug. The first directory with
/// that slug is taken.
pub fn load_gallery_photos(
    gallery_name: &str,
    galleries: &Vec<ScannedGallery>,
    presets: &Vec<(u32, u8)>,
) -> (r: Option<Vec<PhotoInfo>>)
    ensures
        (forall|g: int|
            0 <= g < galleries@.len() ==> gallery_slug_of(#[trigger] galleries@[g].dir_name@)
                != gallery_name@) ==> r is None,
        r matches Some(photos) ==> exists|g: int|
            0 <= g < galleries@.len() && gallery_slug_of(#[trigger] galleries@[g].dir_name@)
                == gallery_name@ && (forall|h: int|
                0 <= h < g ==> gallery_slug_of(#[trigger] galleries@[h].dir_name@)
                    != gallery_name@) && photos_sorted(photos@) && exists|built: Seq<PhotoInfo>|
                built_from(
                    built,
                    galleries@[g].photos@,
                    gallery_name@,
                    default_params_of(presets@),
                ) && #[trigger] built.to_multiset() == photos@.to_multiset()
                    && stably_rearranged(built, photos@, photo_order()),
        (exists|g: int|
            0 <= g < galleries@.len() && gallery_slug_of(#[trigger] galleries@[g].dir_name@)
                == gallery_name@) ==> r is Some,
{
    let mut g: usize = 0;
    while g < galleries.len()
        invariant
            g <= galleries@.len(),
            forall|h: int|
                0 <= h < g ==> gallery_slug_of(#[trigger] galleries@[h].dir_name@)
                    != gallery_name@,
        decreases galleries@.len() - g,
    {
        let slug = gallery_slug(galleries[g].dir_name.as_str());
        if crate::text::str_eq(slug.as_str(), gallery_name) {
            let mut photos: Vec<PhotoInfo> = Vec::new();
            find_images_for_gallery(
                galleries[g].dir_name.as_str(),
                &galleries[g].photos,
                presets,
                &mut photos,
            );
            assert(photos@.skip(0) =~= photos@);
            let ghost built = photos@;
            let r = sort_photos(photos);
            assert(built.to_multiset() == r@.to_multiset());
            assert(gallery_slug_of(galleries@[g as int].dir_name@) == gallery_name@);
            return Some(r);
        }
        g = g + 1;
    }
    None
}

/// The photos of all galleries, each tagged with its gallery's slug, in
/// photo order; photos that order ranks equal keep the order of their
/// galleries.
pub fn load_all_gallery_photos(galleries: &Vec<ScannedGallery>, presets: &Vec<(u32, u8)>) -> (r:
    Vec<PhotoInfo>)
    ensures
        photos_sorted(r@),
        exists|built: Seq<PhotoInfo>|
            all_built_from(built, galleries@, default_params_of(presets@))
                && #[trigger] built.to_multiset() == r@.to_multiset()
                && stably_rearranged(built, r@, photo_order()),
{
    let mut photos: Vec<PhotoInfo> = Vec::new();
    let mut g: usize = 0;
    assert(galleries@.take(0) =~= Seq::<ScannedGallery>::empty());
    while g < galleries.len()
        invariant
            g <= galleries@.len(),
            all_built_from(photos@, galleries@.take(g as int), default_params_of(presets@)),
        decreases galleries@.len() - g,
    {
        let ghost before = photos@;
        find_images_for_gallery(galleries[g].dir_name.as_str(), &galleries[g].photos, presets, &mut photos);
        proof {
            assert(galleries@.take(g + 1).drop_last() =~= galleries@.take(g as int));
            assert(galleries@.take(g + 1).last() == galleries@[g as int]);
            assert(photos@ =~= photos@.take(before.len() as int) + photos@.skip(before.len() as int));
        }
        g = g + 1;
    }
    assert(galleries@.take(galleries@.len() as int) =~= galleries@);
    let ghost built = photos@;
    let r = sort_photos(photos);
    r
}

/// `out` is the photos of the galleries one after another, each built in its
/// gallery (named by the slug of its directory).
pub open spec fn all_built_from(out: Seq<PhotoInfo>, galleries: Seq<ScannedGallery>, params: (u32, u8)) -> bool
    decreases galleries.len(),
{
    if galleries.len() == 0 {
        out.len() == 0
    } else {
        let last = galleries.last();
        let n = nonempty_photos(last.photos@).len();
        n <= out.len() && all_built_from(out.take(out.len() - n), galleries.drop_last(), params)
            && built_from(
            out.skip(out.len() - n),
            last.photos@,
            gallery_slug_of(last.dir_name@),
            params,
        )
    }
}


/// Whether a subdirectory of the images folder holds a gallery: every one
/// does but `categories`.
pub open spec fn is_gallery_dir_name(name: Seq<char>) -> bool {
    name != seq!['c', 'a', 't', 'e', 'g', 'o', 'r', 'i', 'e', 's']
}

/// The views of a sequence of strings.
pub open spec fn string_views(s: Seq<String>) -> Seq<Seq<char>> {
    s.map_values(|x: String| x@)
}

/// The gallery directories among the subdirectory names of the images
/// folder, in the order given.
pub fn discover_gallery_directories(subdirs: &Vec<String>) -> (r: Vec<String>)
    ensures
        string_views(r@) == string_views(subdirs@).filter(|n: Seq<char>| is_gallery_dir_name(n)),
{
    broadcast use Seq::lemma_filter_push;

    let ghost pred = |n: Seq<char>| is_gallery_dir_name(n);
    let mut r: Vec<String> = Vec::new();
    let mut i: usize = 0;
    proof {
        reveal_strlit("categories");
        assert("categories"@ =~= seq!['c', 'a', 't', 'e', 'g', 'o', 'r', 'i', 'e', 's']);
        assert(string_views(subdirs@).take(0) =~= Seq::<Seq<char>>::empty());
        reveal(Seq::filter);
        assert(string_views(r@) =~= Seq::<Seq<char>>::empty().filter(pred));
    }
    while i < subdirs.len()
        invariant
            i <= subdirs@.len(),
            string_views(r@) == string_views(subdirs@).take(i as int).filter(pred),
            pred == (|n: Seq<char>| is_gallery_dir_name(n)),
            "categories"@ == seq!['c', 'a', 't', 'e', 'g', 'o', 'r', 'i', 'e', 's'],
        decreases subdirs@.len() - i,
    {
        let ghost before = r@;
        proof {
            assert(string_views(subdirs@).take(i + 1) =~= string_views(subdirs@).take(
                i as int,
            ).push(subdirs@[i as int]@));
            string_views(subdirs@).take(i as int).lemma_filter_push(subdirs@[i as int]@, pred);
        }
        if !crate::text::str_eq(subdirs[i].as_str(), "categories") {
            r.push(subdirs[i].clone());
            assert(string_views(r@) =~= string_views(before).push(subdirs@[i as int]@));
        }
        i = i + 1;
    }
    assert(string_views(subdirs@).take(subdirs@.len() as int) =~= string_views(subdirs@));
    r
}

/// The number of the extensions that name an image format once lower-cased.
pub open spec fn image_count(extensions: Seq<Seq<char>>) -> nat {
    extensions.filter(|e: Seq<char>| is_image_ext(lowercase(e))).len()
}

/// Adds to `count` the number of image files among files with the given
/// extensions (as found below a gallery directory).
pub fn count_images_recursive(extensions: &Vec<String>, count: &mut usize)
    requires
        *old(count) + extensions@.len() <= usize::MAX,
    ensures
        *final(count) == *old(count) + image_count(string_views(extensions@)),
{
    broadcast use Seq::lemma_filter_push;

    let ghost pred = |e: Seq<char>| is_image_ext(lowercase(e));
    let ghost start = *count;
    let mut i: usize = 0;
    proof {
        assert(string_views(extensions@).take(0) =~= Seq::<Seq<char>>::empty());
        reveal(Seq::filter);
    }
    while i < extensions.len()
        invariant
            i <= extensions@.len(),
            start + extensions@.len() <= usize::MAX,
            *count == start + string_views(extensions@).take(i as int).filter(pred).len(),
            string_views(extensions@).take(i as int).filter(pred).len() <= i,
            pred == (|e: Seq<char>| is_image_ext(lowercase(e))),
        decreases extensions@.len() - i,
    {
        proof {
            assert(string_views(extensions@).take(i + 1) =~= string_views(extensions@).take(
                i as int,
            ).push(extensions@[i as int]@));
            string_views(extensions@).take(i as int).lemma_filter_push(extensions@[i as int]@, pred);
        }
        let ext = to_lowercase(extensions[i].as_str());
        if is_image_extension(ext.as_str()) {
            *count = *count + 1;
        }
        i = i + 1;
    }
    assert(string_views(extensions@).take(extensions@.len() as int) =~= string_views(extensions@));
}

/// A gallery directory as found on disk: its name, the number of images
/// below it, and its `gallery.toml` settings when that file could be read.
#[derive(Clone, Debug)]
pub struct GalleryDir {
    pub name: String,
    pub photo_count: usize,
    pub config: Option<GalleryConfig>,
}

/// The directories that the gallery list shows: not the home gallery, and
/// holding at least one image.
pub open spec fn listed_dirs(dirs: Seq<GalleryDir>) -> Seq<GalleryDir> {
    dirs.filter(|d: GalleryDir| gallery_slug_of(d.name@) != home_gallery() && d.photo_count > 0)
}

/// `info` describes directory `d`: its name with `-` and `_` shown as
/// spaces, the slug of the directory, its image count and settings.
pub open spec fn info_matches(info: GalleryInfo, d: GalleryDir) -> bool {
    &&& info.name@ == replace2(d.name@, '-', '_', ' ')
    &&& info.slug@ == gallery_slug_of(d.name@)
    &&& info.photo_count == d.photo_count
    &&& info.config == d.config
}

/// `infos` describes `dirs`, one for one and in order.
pub open spec fn infos_match(infos: Seq<GalleryInfo>, dirs: Seq<GalleryDir>) -> bool {
    &&& infos.len() == dirs.len()
    &&& forall|k: int| 0 <= k < dirs.len() ==> info_matches(#[trigger] infos[k], dirs[k])
}

/// `s` is in order of gallery name.
pub open spec fn names_sorted(s: Seq<GalleryInfo>) -> bool {
    forall|i: int, j: int| 0 <= i < j < s.len() ==> lex_le(#[trigger] s[i].name@, #[trigger] s[j].name@)
}

/// The order of gallery names as a relation.
pub open spec fn name_order() -> spec_fn(GalleryInfo, GalleryInfo) -> bool {
    |a: GalleryInfo, b: GalleryInfo| lex_le(a.name@, b.name@)
}

/// The galleries in order of name, stable among equal names.
pub fn sort_galleries(galleries: Vec<GalleryInfo>) -> (r: Vec<GalleryInfo>)
    ensures
        names_sorted(r@),
        r@.to_multiset() == galleries@.to_multiset(),
        stably_rearranged(galleries@, r@, name_order()),
{
    broadcast use vstd::seq_lib::group_to_multiset_ensures;

    let mut input = galleries;
    let mut out: Vec<GalleryInfo> = Vec::new();
    let ghost mut perm: Seq<int> = Seq::empty();
    proof {
        assert(out@.to_multiset().add(input@.to_multiset()) =~= galleries@.to_multiset());
        assert(input@ =~= galleries@.take(input@.len() as int));
    }
    while input.len() > 0
        invariant
            names_sorted(out@),
            out@.to_multiset().add(input@.to_multiset()) == galleries@.to_multiset(),
            input@ == galleries@.take(input@.len() as int),
            out@.len() + input@.len() == galleries@.len(),
            arranged_from(galleries@, out@, perm, input@.len() as int, name_order()),
        decreases input@.len(),
    {
        let ghost before_in = input@;
        let ghost before_out = out@;
        let ghost k = input@.len() as int;
        let x = input.pop().unwrap();
        assert(before_in =~= input@.push(x));
        assert(input@ =~= galleries@.take(k - 1));
        assert(x == galleries@[k - 1]);
        let mut p: usize = 0;
        while p < out.len() && !str_le(x.name.as_str(), out[p].name.as_str())
            invariant
                out@ == before_out,
                p <= out@.len(),
                forall|k: int| 0 <= k < p ==> !lex_le(x.name@, #[trigger] out@[k].name@),
            decreases out@.len() - p,
        {
            p = p + 1;
        }
        out.insert(p, x);
        proof {
            lemma_arranged_insert(galleries@, before_out, perm, k, p as int, name_order());
            perm = perm.insert(p as int, k - 1);
            assert forall|i: int, j: int| 0 <= i < j < out@.len() implies lex_le(
                #[trigger] out@[i].name@,
                #[trigger] out@[j].name@,
            ) by {
                if j < p {
                } else if i < p && j == p {
                    lemma_lex_le_total(x.name@, before_out[i].name@);
                } else if i < p && j > p {
                    assert(out@[j] == before_out[j - 1]);
                } else if i == p {
                    assert(out@[j] == before_out[j - 1]);
                    assert(lex_le(x.name@, before_out[p as int].name@));
                    if j - 1 > p {
                        assert(lex_le(before_out[p as int].name@, before_out[j - 1].name@));
                        lemma_lex_le_transitive(
                            x.name@,
                            before_out[p as int].name@,
                            before_out[j - 1].name@,
                        );
                    }
                } else {
                    assert(out@[i] == before_out[i - 1]);
                    assert(out@[j] == before_out[j - 1]);
                }
            }
            assert(out@ == before_out.insert(p as int, x));
            vstd::seq_lib::to_multiset_insert(before_out, p as int, x);
            vstd::seq_lib::to_multiset_build(input@, x);
            assert(out@.to_multiset().add(input@.to_multiset()) =~= before_out.to_multiset().add(
                before_in.to_multiset(),
            ));
        }
    }
    proof {
        assert(input@.to_multiset() =~= Multiset::empty());
        assert(out@.to_multiset() =~= galleries@.to_multiset());
        assert(stable_rearrangement(galleries@, out@, perm, name_order()));
    }
    out
}

/// The galleries to list, in order of name: one per directory that holds
/// images, except the home gallery.
pub fn load_galleries(dirs: &Vec<GalleryDir>) -> (r: Vec<GalleryInfo>)
    ensures
        names_sorted(r@),
        exists|built: Seq<GalleryInfo>|
            infos_match(built, listed_dirs(dirs@)) && #[trigger] built.to_multiset()
                == r@.to_multiset() && stably_rearranged(built, r@, name_order()),
{
    broadcast use Seq::lemma_filter_push;

    let ghost pred = |d: GalleryDir| gallery_slug_of(d.name@) != home_gallery() && d.photo_count > 0;
    let mut galleries: Vec<GalleryInfo> = Vec::new();
    let mut i: usize = 0;
    proof {
        reveal_strlit("home");
        assert("home"@ =~= home_gallery());
        assert(dirs@.take(0) =~= Seq::<GalleryDir>::empty());
        reveal(Seq::filter);
    }
    while i < dirs.len()
        invariant
            i <= dirs@.len(),
            infos_match(galleries@, dirs@.take(i as int).filter(pred)),
            pred == (|d: GalleryDir| gallery_slug_of(d.name@) != home_gallery() && d.photo_count > 0),
            "home"@ == home_gallery(),
        decreases dirs@.len() - i,
    {
        let ghost before = galleries@;
        proof {
            assert(dirs@.take(i + 1) =~= dirs@.take(i as int).push(dirs@[i as int]));
            dirs@.take(i as int).lemma_filter_push(dirs@[i as int], pred);
        }
        let d = &dirs[i];
        let slug = gallery_slug(d.name.as_str());
        if !crate::text::str_eq(slug.as_str(), "home") && d.photo_count > 0 {
            let info = GalleryInfo {
                name: replace_chars(d.name.as_str(), '-', '_', ' '),
                slug,
                photo_count: d.photo_count,
                config: d.config,
            };
            galleries.push(info);
            proof {
                let f = dirs@.take(i + 1).filter(pred);
                assert(f == dirs@.take(i as int).filter(pred).push(dirs@[i as int]));
                assert forall|k: int| 0 <= k < f.len() implies info_matches(
                    #[trigger] galleries@[k],
                    f[k],
                ) by {
                    if k < before.len() {
                        assert(galleries@[k] == before[k]);
                    }
                }
            }
        }
        i = i + 1;
    }
    assert(dirs@.take(dirs@.len() as int) =~= dirs@);
    let ghost built = galleries@;
    let r = sort_galleries(galleries);
    r
}


/// The About text shown when no custom text is provided.
pub const DEFAULT_ABOUT_TEXT: &'static str = "Hello! I'm a passionate photographer specializing in capturing the beauty of everyday moments.\n\nWith over 10 years of experience, I've worked on various projects ranging from landscapes to portraits.\n\nMy photography style focuses on natural lighting and authentic emotions. I believe every photograph tells a unique story, and I'm here to help you tell yours.";

/// The default About text.
pub fn default_about_text() -> (r: String)
    ensures
        r@ == DEFAULT_ABOUT_TEXT@,
{
    DEFAULT_ABOUT_TEXT.to_owned()
}

/// What reading one of the About-page files gave.
#[derive(Clone, Debug, PartialEq)]
pub enum ContentFile {
    /// The file does not exist.
    Missing,
    /// The file exists but could not be read as text.
    Unreadable,
    /// The file's text.
    Text(String),
}

/// Which profile pictures exist in the content folder.
#[derive(Clone, Copy, Debug, PartialEq, Eq)]
pub struct ProfileImages {
    pub jpg: bool,
    pub jpeg: bool,
    pub png: bool,
    pub webp: bool,
}

/// The text of a content file that exists: its text, or the default text
/// when it could not be read.
pub open spec fn file_text(f: ContentFile) -> Seq<char> {
    match f {
        ContentFile::Text(s) => s@,
        _ => DEFAULT_ABOUT_TEXT@,
    }
}

/// The About text: `about.html` when it exists, else `about.txt` when it
/// exists, else the default text.
pub open spec fn about_text(html: ContentFile, text: ContentFile) -> Seq<char> {
    if !(html is Missing) {
        file_text(html)
    } else if !(text is Missing) {
        file_text(text)
    } else {
        DEFAULT_ABOUT_TEXT@
    }
}

/// The URL of the profile picture: the first of `profile.jpg`,
/// `profile.png` and `profile.webp` that exists, under `/content/`.
pub open spec fn profile_url(p: ProfileImages) -> Option<Seq<char>> {
    if p.jpg {
        Some("/content/profile.jpg"@)
    } else if p.jpeg {
        Some("/content/profile.jpeg"@)
    } else if p.png {
        Some("/content/profile.png"@)
    } else if p.webp {
        Some("/content/profile.webp"@)
    } else {
        None
    }
}

fn content_text(f: ContentFile) -> (r: String)
    requires
        !(f is Missing),
    ensures
        r@ == file_text(f),
{
    match f {
        ContentFile::Text(s) => s,
        _ => default_about_text(),
    }
}

/// The About page from what was found in the content folder: the HTML file
/// (shown as HTML) wins over the text file, which wins over the default
/// text; the profile picture is the first that exists.
pub fn load_about_content(html: ContentFile, text: ContentFile, profile: ProfileImages) -> (r:
    AboutContent)
    ensures
        r.content@ == about_text(html, text),
        r.is_html == !(html is Missing),
        opt_view(r.image_url) == profile_url(profile),
{
    let is_html = !matches!(html, ContentFile::Missing);
    let content = if is_html {
        content_text(html)
    } else if !matches!(text, ContentFile::Missing) {
        content_text(text)
    } else {
        default_about_text()
    };
    let image_url = if profile.jpg {
        Some("/content/profile.jpg".to_owned())
    } else if profile.jpeg {
        Some("/content/profile.jpeg".to_owned())
    } else if profile.png {
        Some("/content/profile.png".to_owned())
    } else if profile.webp {
        Some("/content/profile.webp".to_owned())
    } else {
        None
    };
    AboutContent { image_url, content, is_html }
}


/// A line with nothing but whitespace.
pub open spec fn blank_line(l: Seq<char>) -> bool {
    forall|i: int| 0 <= i < l.len() ==> crate::text::is_whitespace(#[trigger] l[i])
}

/// The runs of non-blank lines among `lines`: the runs closed so far, and
/// the run still open (its lines joined with `\n`), if any.
pub open spec fn line_runs(lines: Seq<Seq<char>>) -> (Seq<Seq<char>>, Option<Seq<char>>)
    decreases lines.len(),
{
    if lines.len() == 0 {
        (Seq::empty(), None)
    } else {
        let (done, open) = line_runs(lines.drop_last());
        let l = lines.last();
        if blank_line(l) {
            match open {
                Some(c) => (done.push(c), None),
                None => (done, None),
            }
        } else {
            match open {
                Some(c) => (done, Some(c + seq!['\n'] + l)),
                None => (done, Some(l)),
            }
        }
    }
}

/// The paragraphs of a text: its maximal runs of non-blank lines, each
/// trimmed; blank lines separate them.
pub open spec fn paragraphs(text: Seq<char>) -> Seq<Seq<char>> {
    let (done, open) = line_runs(split_on(text, '\n'));
    let runs = match open {
        Some(c) => done.push(c),
        None => done,
    };
    runs.map_values(|r: Seq<char>| crate::text::trim(r))
}

fn is_blank_line(l: &Vec<char>) -> (r: bool)
    ensures
        r == blank_line(l@),
{
    let mut i: usize = 0;
    while i < l.len()
        invariant
            i <= l@.len(),
            forall|k: int| 0 <= k < i ==> crate::text::is_whitespace(#[trigger] l@[k]),
        decreases l@.len() - i,
    {
        if !crate::text::char_is_whitespace(l[i]) {
            return false;
        }
        i = i + 1;
    }
    true
}

fn trimmed_string(v: &Vec<char>) -> (r: String)
    ensures
        r@ == crate::text::trim(v@),
{
    let s = string_from_chars(v, 0, v.len());
    assert(v@.subrange(0, v@.len() as int) =~= v@);
    String::from_str(crate::text::trim_str(s.as_str()))
}

/// The paragraphs of the About text, each to be shown as one `<p>`: the
/// maximal runs of non-blank lines, trimmed.
pub fn about_paragraphs(content: &str) -> (r: Vec<String>)
    ensures
        string_views(r@) == paragraphs(content@),
{
    let chars = to_chars(content);
    let lines = split_chars(&chars, '\n');
    let ghost ls = char_vecs(lines@);
    let mut done: Vec<Vec<char>> = Vec::new();
    let mut open: Option<Vec<char>> = None;
    let mut i: usize = 0;
    assert(ls.take(0) =~= Seq::<Seq<char>>::empty());
    while i < lines.len()
        invariant
            ls == char_vecs(lines@),
            ls == split_on(content@, '\n'),
            i <= lines@.len(),
            char_vecs(done@) == line_runs(ls.take(i as int)).0,
            match open {
                Some(c) => line_runs(ls.take(i as int)).1 == Some(c@),
                None => line_runs(ls.take(i as int)).1 is None,
            },
        decreases lines@.len() - i,
    {
        let l = &lines[i];
        assert(ls.take(i + 1).drop_last() =~= ls.take(i as int));
        assert(ls.take(i + 1).last() == l@);
        if is_blank_line(l) {
            let taken = open.take();
            match taken {
                Some(c) => {
                    let ghost before = done@;
                    done.push(c);
                    assert(char_vecs(done@) =~= char_vecs(before).push(c@));
                },
                None => {},
            }
        } else {
            let taken = open.take();
            match taken {
                Some(c) => {
                    let mut c = c;
                    let ghost old_c = c@;
                    c.push('\n');
                    let mut k: usize = 0;
                    while k < l.len()
                        invariant
                            k <= l@.len(),
                            c@ == old_c + seq!['\n'] + l@.take(k as int),
                        decreases l@.len() - k,
                    {
                        c.push(l[k]);
                        assert(l@.take(k + 1) =~= l@.take(k as int).push(l@[k as int]));
                        k = k + 1;
                    }
                    assert(l@.take(l@.len() as int) =~= l@);
                    open = Some(c);
                },
                None => {
                    let mut c: Vec<char> = Vec::new();
                    let mut k: usize = 0;
                    while k < l.len()
                        invariant
                            k <= l@.len(),
                            c@ == l@.take(k as int),
                        decreases l@.len() - k,
                    {
                        c.push(l[k]);
                        assert(l@.take(k + 1) =~= l@.take(k as int).push(l@[k as int]));
                        k = k + 1;
                    }
                    assert(l@.take(l@.len() as int) =~= l@);
                    open = Some(c);
                },
            }
        }
        i = i + 1;
    }
    assert(ls.take(lines@.len() as int) =~= ls);
    if let Some(c) = open {
        let ghost before = done@;
        done.push(c);
        assert(char_vecs(done@) =~= char_vecs(before).push(c@));
    }
    let ghost runs = char_vecs(done@);
    let mut r: Vec<String> = Vec::new();
    let mut j: usize = 0;
    while j < done.len()
        invariant
            runs == char_vecs(done@),
            j <= done@.len(),
            string_views(r@) == runs.take(j as int).map_values(|x: Seq<char>| crate::text::trim(x)),
        decreases done@.len() - j,
    {
        let t = trimmed_string(&done[j]);
        let ghost before = r@;
        r.push(t);
        assert(string_views(r@) =~= string_views(before).push(t@));
        assert(runs.take(j + 1).map_values(|x: Seq<char>| crate::text::trim(x)) =~= runs.take(
            j as int,
        ).map_values(|x: Seq<char>| crate::text::trim(x)).push(crate::text::trim(runs[j as int])));
        j = j + 1;
    }
    assert(runs.take(done@.len() as int) =~= runs);
    r
}

/// Every gallery listed is one to list: it is not the home gallery and it
/// holds photos.
pub proof fn lemma_listed_galleries_exclude_home(
    dirs: Seq<GalleryDir>,
    built: Seq<GalleryInfo>,
    listed: Seq<GalleryInfo>,
)
    requires
        infos_match(built, listed_dirs(dirs)),
        built.to_multiset() == listed.to_multiset(),
    ensures
        forall|k: int|
            #![trigger listed[k]]
            0 <= k < listed.len() ==> listed[k].slug@ != home_gallery() && listed[k].photo_count > 0,
{
    broadcast use vstd::seq_lib::group_to_multiset_ensures;

    let pred = |d: GalleryDir| gallery_slug_of(d.name@) != home_gallery() && d.photo_count > 0;
    assert forall|k: int|
        #![trigger listed[k]]
        0 <= k < listed.len() implies listed[k].slug@ != home_gallery() && listed[k].photo_count > 0 by {
        assert(listed.contains(listed[k]));
        vstd::seq_lib::to_multiset_contains(listed, listed[k]);
        vstd::seq_lib::to_multiset_contains(built, listed[k]);
        assert(built.contains(listed[k]));
        let j = choose|j: int| 0 <= j < built.len() && built[j] == listed[k];
        assert(info_matches(built[j], listed_dirs(dirs)[j]));
        dirs.lemma_filter_pred(pred, j);
    }
}


/// The galleries of `gs` with slug `slug`, in order.
pub open spec fn with_slug(gs: Seq<GalleryInfo>, slug: Seq<char>) -> Seq<GalleryInfo>
    decreases gs.len(),
{
    if gs.len() == 0 {
        Seq::empty()
    } else {
        with_slug(gs.drop_last(), slug) + if gs.last().slug@ == slug {
            seq![gs.last()]
        } else {
            Seq::empty()
        }
    }
}

/// Whether one of the strings of `order` is `s`.
pub open spec fn names_slug(order: Seq<String>, s: Seq<char>) -> bool {
    exists|i: int| 0 <= i < order.len() && #[trigger] order[i]@ == s
}

/// The galleries named in `order`, slug by slug in that order (a slug named
/// twice counts once).
pub open spec fn ordered_part(gs: Seq<GalleryInfo>, order: Seq<String>) -> Seq<GalleryInfo>
    decreases order.len(),
{
    if order.len() == 0 {
        Seq::empty()
    } else {
        ordered_part(gs, order.drop_last()) + if names_slug(order.drop_last(), order.last()@) {
            Seq::empty()
        } else {
            with_slug(gs, order.last()@)
        }
    }
}

/// The galleries not named in `order`, in their order.
pub open spec fn unlisted_part(gs: Seq<GalleryInfo>, order: Seq<String>) -> Seq<GalleryInfo>
    decreases gs.len(),
{
    if gs.len() == 0 {
        Seq::empty()
    } else {
        unlisted_part(gs.drop_last(), order) + if names_slug(order, gs.last().slug@) {
            Seq::empty()
        } else {
            seq![gs.last()]
        }
    }
}

/// A copy of a gallery.
pub fn copy_gallery(g: &GalleryInfo) -> (r: GalleryInfo)
    ensures
        r == *g,
{
    GalleryInfo { name: g.name.clone(), slug: g.slug.clone(), photo_count: g.photo_count, config: g.config }
}

/// Whether one of the first `n` strings of `order` is `s`.
fn names_slug_before(order: &Vec<String>, n: usize, s: &str) -> (r: bool)
    requires
        n <= order@.len(),
    ensures
        r == names_slug(order@.take(n as int), s@),
{
    let mut i: usize = 0;
    while i < n
        invariant
            i <= n <= order@.len(),
            forall|k: int| 0 <= k < i ==> order@[k]@ != s@,
        decreases n - i,
    {
        if crate::text::str_eq(order[i].as_str(), s) {
            assert(order@.take(n as int)[i as int]@ == s@);
            return true;
        }
        i = i + 1;
    }
    assert forall|k: int| 0 <= k < n implies #[trigger] order@.take(n as int)[k]@ != s@ by {
        assert(order@.take(n as int)[k] == order@[k]);
    }
    false
}

/// The galleries in navigation order: first those whose slugs `order` names,
/// in the order it names them, then the others in the order given
/// (alphabetical, as `load_galleries` returns them).
pub fn order_galleries(galleries: &Vec<GalleryInfo>, order: &Vec<String>) -> (r: Vec<GalleryInfo>)
    ensures
        r@ == ordered_part(galleries@, order@) + unlisted_part(galleries@, order@),
{
    let mut r: Vec<GalleryInfo> = Vec::new();
    let mut i: usize = 0;
    assert(order@.take(0) =~= Seq::<String>::empty());
    while i < order.len()
        invariant
            i <= order@.len(),
            r@ == ordered_part(galleries@, order@.take(i as int)),
        decreases order@.len() - i,
    {
        let ghost before = r@;
        let ghost t = order@.take(i + 1);
        proof {
            assert(t.drop_last() =~= order@.take(i as int));
            assert(t.last() == order@[i as int]);
        }
        if !names_slug_before(order, i, order[i].as_str()) {
            let mut j: usize = 0;
            assert(galleries@.take(0) =~= Seq::<GalleryInfo>::empty());
            while j < galleries.len()
                invariant
                    j <= galleries@.len(),
                    i < order@.len(),
                    r@ == before + with_slug(galleries@.take(j as int), order@[i as int]@),
                decreases galleries@.len() - j,
            {
                let ghost mid = r@;
                assert(galleries@.take(j + 1).drop_last() =~= galleries@.take(j as int));
                if crate::text::str_eq(galleries[j].slug.as_str(), order[i].as_str()) {
                    r.push(copy_gallery(&galleries[j]));
                    assert(r@ =~= before + with_slug(galleries@.take(j + 1), order@[i as int]@));
                } else {
                    assert(r@ =~= before + with_slug(galleries@.take(j + 1), order@[i as int]@));
                }
                j = j + 1;
            }
            assert(galleries@.take(galleries@.len() as int) =~= galleries@);
            assert(r@ =~= ordered_part(galleries@, t));
        } else {
            assert(r@ =~= ordered_part(galleries@, t));
        }
        i = i + 1;
    }
    assert(order@.take(order@.len() as int) =~= order@);
    let ghost listed = r@;
    let mut j: usize = 0;
    assert(galleries@.take(0) =~= Seq::<GalleryInfo>::empty());
    assert(r@ =~= listed + unlisted_part(galleries@.take(0), order@));
    while j < galleries.len()
        invariant
            j <= galleries@.len(),
            r@ == listed + unlisted_part(galleries@.take(j as int), order@),
        decreases galleries@.len() - j,
    {
        assert(galleries@.take(j + 1).drop_last() =~= galleries@.take(j as int));
        let named = names_slug_before(order, order.len(), galleries[j].slug.as_str());
        assert(order@.take(order@.len() as int) =~= order@);
        if !named {
            r.push(copy_gallery(&galleries[j]));
        }
        assert(r@ =~= listed + unlisted_part(galleries@.take(j + 1), order@));
        j = j + 1;
    }
    assert(galleries@.take(galleries@.len() as int) =~= galleries@);
    r
}

/// The galleries of the navigation: the galleries `load_galleries` lists
/// (in order of name), with those whose slugs `order` names first, in the
/// order it names them, and the others after them, in order of name.
pub fn load_navigation(dirs: &Vec<GalleryDir>, order: &Vec<String>) -> (r: Vec<GalleryInfo>)
    ensures
        exists|listed: Seq<GalleryInfo>|
            {
                &&& names_sorted(listed)
                &&& exists|built: Seq<GalleryInfo>|
                    infos_match(built, listed_dirs(dirs@)) && #[trigger] stably_rearranged(
                        built,
                        listed,
                        name_order(),
                    )
                &&& r@ == ordered_part(listed, order@) + unlisted_part(listed, order@)
            },
{
    let listed = load_galleries(dirs);
    order_galleries(&listed, order)
}

/// With no order configured, the navigation lists the galleries as given.
pub proof fn lemma_no_order_keeps_galleries(gs: Seq<GalleryInfo>)
    ensures
        ordered_part(gs, Seq::empty()) + unlisted_part(gs, Seq::empty()) == gs,
    decreases gs.len(),
{
    if gs.len() > 0 {
        lemma_no_order_keeps_galleries(gs.drop_last());
        assert(!names_slug(Seq::<String>::empty(), gs.last().slug@));
        assert(unlisted_part(gs, Seq::empty()) =~= unlisted_part(gs.drop_last(), Seq::empty()).push(gs.last()));
        assert(gs =~= gs.drop_last().push(gs.last()));
    } else {
        assert(ordered_part(gs, Seq::empty()) + unlisted_part(gs, Seq::empty()) =~= gs);
    }
}

} // verus!
