//! Photo metadata: which EXIF values a photo shows and how they are worded.

use vstd::prelude::*;
use crate::text::{push_str, to_chars};
use crate::image_cache::{last_index, last_index_of, lemma_last_index_bound};

verus! {

/// The metadata a photo shows.
#[derive(Clone, Debug, PartialEq)]
pub struct ExifData {
    pub width: Option<u32>,
    pub height: Option<u32>,
    pub date_taken: Option<String>,
    pub camera_make: Option<String>,
    pub camera_model: Option<String>,
    pub lens_model: Option<String>,
    pub focal_length: Option<String>,
    pub aperture: Option<String>,
    pub shutter_speed: Option<String>,
    pub iso: Option<String>,
    pub copyright: Option<String>,
}

/// `s` holds `p` somewhere.
pub open spec fn contains_seq(s: Seq<char>, p: Seq<char>) -> bool {
    exists|i: int| 0 <= i && i + p.len() <= s.len() && #[trigger] s.subrange(i, i + p.len()) == p
}

/// The first of two optional values that is present.
pub open spec fn first_some<T>(a: Option<T>, b: Option<T>) -> Option<T> {
    match a {
        Some(x) => Some(x),
        None => b,
    }
}

/// The view of an optional string.
pub open spec fn opt_view(o: Option<String>) -> Option<Seq<char>> {
    match o {
        Some(s) => Some(s@),
        None => None,
    }
}

/// A date and time without its seconds: cut at the last `:`.
pub open spec fn date_without_seconds(s: Seq<char>) -> Seq<char> {
    match last_index(s, ':') {
        Some(i) => s.take(i),
        None => s,
    }
}

/// A focal length with ` mm` appended unless it already names millimetres.
pub open spec fn focal_length_text(s: Seq<char>) -> Seq<char> {
    if contains_seq(s, seq!['m', 'm']) {
        s
    } else {
        s + seq![' ', 'm', 'm']
    }
}

/// An aperture as `f/{value}`.
pub open spec fn aperture_text(s: Seq<char>) -> Seq<char> {
    seq!['f', '/'] + s
}

/// An exposure time with ` s` appended unless it already holds an `s`.
pub open spec fn shutter_text(s: Seq<char>) -> Seq<char> {
    if contains_seq(s, seq!['s']) {
        s
    } else {
        s + seq![' ', 's']
    }
}

/// A sensitivity as `ISO {value}`.
pub open spec fn iso_text(s: Seq<char>) -> Seq<char> {
    seq!['I', 'S', 'O', ' '] + s
}

/// Whether `s` holds `p`.
pub fn str_contains(s: &str, p: &str) -> (r: bool)
    ensures
        r == contains_seq(s@, p@),
{
    let v = to_chars(s);
    let q = to_chars(p);
    if q.len() > v.len() {
        return false;
    }
    let n = v.len();
    let m = q.len();
    let mut i: usize = 0;
    while i <= n - m
        invariant
            v@ == s@,
            q@ == p@,
            n == v@.len(),
            m == q@.len(),
            m <= n,
            i <= n - m + 1,
            forall|j: int| 0 <= j < i ==> #[trigger] s@.subrange(j, j + p@.len()) != p@,
        decreases n - i,
    {
        let mut k: usize = 0;
        let mut same = true;
        while k < m
            invariant
                v@ == s@,
                q@ == p@,
                n == v@.len(),
                m == q@.len(),
                i + m <= n,
                k <= m,
                same == forall|t: int| 0 <= t < k ==> v@[i + t] == q@[t],
            decreases m - k,
        {
            if v[i + k] != q[k] {
                same = false;
            }
            k = k + 1;
        }
        if same {
            assert(s@.subrange(i as int, i + p@.len()) =~= p@);
            return true;
        }
        assert(s@.subrange(i as int, i + p@.len()) != p@) by {
            let t = choose|t: int| 0 <= t < q@.len() && v@[i + t] != q@[t];
            assert(s@.subrange(i as int, i + p@.len())[t] == v@[i + t]);
        }
        i = i + 1;
    }
    false
}


/// The directory in which a tag number is read (`exif::Context`).
#[derive(Clone, Copy, Debug, PartialEq, Eq, Structural)]
pub enum TagContext {
    /// TIFF attributes (the 0th and 1st IFD).
    Tiff,
    /// Exif attributes.
    Exif,
    /// GPS attributes.
    Gps,
    /// Interoperability attributes.
    Interop,
    /// A directory this library does not know.
    Other,
}

/// One field of an image's EXIF data, as plain values.
#[derive(Clone, Debug, PartialEq)]
pub struct ExifEntry {
    /// The directory of the field's tag.
    pub context: TagContext,
    /// The number of the field's tag.
    pub number: u16,
    /// The IFD the field belongs to; 0 is the primary image.
    pub ifd: u16,
    /// The field's first value as an unsigned integer, when it is one.
    pub uint: Option<u32>,
    /// The field's value as `exif::Field::display_value` writes it.
    pub text: String,
    /// The field's strings, when its value is of the ASCII type.
    pub ascii: Option<Vec<Vec<u8>>>,
}

/// Tag numbers (EXIF 2.3, tables 4 and 7) of the fields a photo's metadata
/// is taken from.
pub const IMAGE_WIDTH: u16 = 0x100;
pub const IMAGE_LENGTH: u16 = 0x101;
pub const MAKE: u16 = 0x10f;
pub const MODEL: u16 = 0x110;
pub const DATE_TIME: u16 = 0x132;
pub const EXPOSURE_TIME: u16 = 0x829a;
pub const F_NUMBER: u16 = 0x829d;
pub const PHOTOGRAPHIC_SENSITIVITY: u16 = 0x8827;
pub const DATE_TIME_ORIGINAL: u16 = 0x9003;
pub const FOCAL_LENGTH: u16 = 0x920a;
pub const PIXEL_X_DIMENSION: u16 = 0xa002;
pub const PIXEL_Y_DIMENSION: u16 = 0xa003;
pub const LENS_MODEL: u16 = 0xa434;
pub const COPYRIGHT: u16 = 0x8298;

/// A field as a tuple: tag directory, tag number, IFD, integer value, text,
/// ASCII strings.
pub type FieldView = (TagContext, u16, u16, Option<u32>, Seq<char>, Option<Seq<Seq<u8>>>);

/// The contents of optional byte strings.
pub open spec fn ascii_view(a: Option<Vec<Vec<u8>>>) -> Option<Seq<Seq<u8>>> {
    match a {
        Some(v) => Some(v@.map_values(|b: Vec<u8>| b@)),
        None => None,
    }
}

/// The plain values of a field.
pub open spec fn entry_view(e: ExifEntry) -> FieldView {
    (e.context, e.number, e.ifd, e.uint, e.text@, ascii_view(e.ascii))
}

/// The plain values of each field.
pub open spec fn entry_views(s: Seq<ExifEntry>) -> Seq<FieldView> {
    s.map_values(|e: ExifEntry| entry_view(e))
}

/// The fields of the EXIF data in an image file's bytes, in the order
/// `exif::Exif::fields` gives them, each as `read_exif` converts it; `None`
/// when `exif::Reader::read_from_container` finds or parses none.
pub uninterp spec fn exif_fields(bytes: Seq<u8>) -> Option<Seq<(TagContext, u16, u16, Option<u32>, Seq<char>, Option<Seq<Seq<u8>>>)>>;

/// The width and height that `image::ImageReader::into_dimensions` reads
/// from an image file's header, as the format its extension names; `None`
/// when that fails.
pub uninterp spec fn header_size(bytes: Seq<u8>, extension: Seq<char>) -> Option<(u32, u32)>;

/// The primary image's field with the tag (`context`, `number`), as
/// `exif::Exif::get_field` finds it: the last such field.
pub open spec fn primary_field(fs: Seq<FieldView>, context: TagContext, number: u16) -> Option<FieldView>
    decreases fs.len(),
{
    if fs.len() == 0 {
        None
    } else if fs.last().0 == context && fs.last().1 == number && fs.last().2 == 0 {
        Some(fs.last())
    } else {
        primary_field(fs.drop_last(), context, number)
    }
}

/// The field with tag `a`, else the one with tag `b`.
pub open spec fn either_field(fs: Seq<FieldView>, a: (TagContext, u16), b: (TagContext, u16)) -> Option<FieldView> {
    match primary_field(fs, a.0, a.1) {
        Some(f) => Some(f),
        None => primary_field(fs, b.0, b.1),
    }
}

/// A field's integer value.
pub open spec fn uint_of(f: Option<FieldView>) -> Option<u32> {
    match f {
        Some(v) => v.3,
        None => None,
    }
}

/// A field's text.
pub open spec fn text_of(f: Option<FieldView>) -> Option<Seq<char>> {
    match f {
        Some(v) => Some(v.4),
        None => None,
    }
}

/// The text of the primary image's field with a tag.
pub open spec fn field_text(fs: Seq<FieldView>, context: TagContext, number: u16) -> Option<Seq<char>> {
    text_of(primary_field(fs, context, number))
}

/// The width EXIF gives: the pixel width field, else the image width field.
pub open spec fn exif_width(fs: Seq<FieldView>) -> Option<u32> {
    uint_of(either_field(fs, (TagContext::Exif, PIXEL_X_DIMENSION), (TagContext::Tiff, IMAGE_WIDTH)))
}

/// The height EXIF gives: the pixel height field, else the image length field.
pub open spec fn exif_height(fs: Seq<FieldView>) -> Option<u32> {
    uint_of(either_field(fs, (TagContext::Exif, PIXEL_Y_DIMENSION), (TagContext::Tiff, IMAGE_LENGTH)))
}

/// The width and height a photo shows: those of EXIF, unless either is
/// missing and the file header was read, whose size is then taken.
pub open spec fn dimensions_of(fs: Seq<FieldView>, header: Option<(u32, u32)>) -> (Option<u32>, Option<u32>) {
    let w = exif_width(fs);
    let h = exif_height(fs);
    if w is None || h is None {
        match header {
            Some((hw, hh)) => (Some(hw), Some(hh)),
            None => (w, h),
        }
    } else {
        (w, h)
    }
}

/// An optional text worded by `f`.
pub open spec fn worded(t: Option<Seq<char>>, f: spec_fn(Seq<char>) -> Seq<char>) -> Option<Seq<char>> {
    match t {
        Some(s) => Some(f(s)),
        None => None,
    }
}

/// No metadata at all.
pub open spec fn no_metadata(d: ExifData) -> bool {
    &&& d.width is None && d.height is None
    &&& d.date_taken is None && d.camera_make is None && d.camera_model is None
    &&& d.lens_model is None && d.focal_length is None && d.aperture is None
    &&& d.shutter_speed is None && d.iso is None && d.copyright is None
}

/// The metadata a photo shows, from its EXIF fields (if any were read) and
/// its file header's size (read when EXIF lacks the width or the height).
pub open spec fn exif_data_matches(fields: Option<Seq<FieldView>>, header: Option<(u32, u32)>, d: ExifData) -> bool {
    match fields {
        None => no_metadata(d),
        Some(fs) => {
            &&& (d.width, d.height) == dimensions_of(fs, header)
            &&& opt_view(d.date_taken) == worded(
                text_of(either_field(fs, (TagContext::Exif, DATE_TIME_ORIGINAL), (TagContext::Tiff, DATE_TIME))),
                |s: Seq<char>| date_without_seconds(s),
            )
            &&& opt_view(d.camera_make) == field_text(fs, TagContext::Tiff, MAKE)
            &&& opt_view(d.camera_model) == field_text(fs, TagContext::Tiff, MODEL)
            &&& opt_view(d.lens_model) == field_text(fs, TagContext::Exif, LENS_MODEL)
            &&& opt_view(d.focal_length) == worded(
                field_text(fs, TagContext::Exif, FOCAL_LENGTH),
                |s: Seq<char>| focal_length_text(s),
            )
            &&& opt_view(d.aperture) == worded(
                field_text(fs, TagContext::Exif, F_NUMBER),
                |s: Seq<char>| aperture_text(s),
            )
            &&& opt_view(d.shutter_speed) == worded(
                field_text(fs, TagContext::Exif, EXPOSURE_TIME),
                |s: Seq<char>| shutter_text(s),
            )
            &&& opt_view(d.iso) == worded(
                field_text(fs, TagContext::Exif, PHOTOGRAPHIC_SENSITIVITY),
                |s: Seq<char>| iso_text(s),
            )
            &&& opt_view(d.copyright) == copyright_of(primary_field(fs, TagContext::Tiff, COPYRIGHT))
        },
    }
}

/// Byte strings one after another.
pub open spec fn joined(ss: Seq<Seq<u8>>) -> Seq<u8>
    decreases ss.len(),
{
    if ss.len() == 0 {
        Seq::empty()
    } else {
        joined(ss.drop_last()) + ss.last()
    }
}

/// The copyright a photo shows: an ASCII value's strings joined and read as
/// UTF-8 (nothing when they are not valid UTF-8); any other value as
/// displayed.
pub open spec fn copyright_of(f: Option<FieldView>) -> Option<Seq<char>> {
    match f {
        None => None,
        Some(v) => match v.5 {
            Some(strs) => if vstd::utf8::valid_utf8(joined(strs)) {
                Some(vstd::utf8::decode_utf8(joined(strs)))
            } else {
                None
            },
            None => Some(v.4),
        },
    }
}

/// `String::from_utf8`: the string the bytes encode, or `None` when they are
/// not valid UTF-8 (as vstd's `valid_utf8` and `decode_utf8` describe it).
#[verifier::external_body]
fn string_from_utf8(bytes: Vec<u8>) -> (r: Option<String>)
    ensures
        match r {
            Some(s) => vstd::utf8::valid_utf8(bytes@) && s@ == vstd::utf8::decode_utf8(bytes@),
            None => !vstd::utf8::valid_utf8(bytes@),
        },
{
    String::from_utf8(bytes).ok()
}

fn join_strings(strs: &Vec<Vec<u8>>) -> (r: Vec<u8>)
    ensures
        r@ == joined(strs@.map_values(|b: Vec<u8>| b@)),
{
    let ghost ss = strs@.map_values(|b: Vec<u8>| b@);
    let mut r: Vec<u8> = Vec::new();
    let mut i: usize = 0;
    assert(ss.take(0) =~= Seq::<Seq<u8>>::empty());
    while i < strs.len()
        invariant
            ss == strs@.map_values(|b: Vec<u8>| b@),
            i <= strs@.len(),
            r@ == joined(ss.take(i as int)),
        decreases strs@.len() - i,
    {
        let s = &strs[i];
        let ghost before = r@;
        let mut k: usize = 0;
        while k < s.len()
            invariant
                k <= s@.len(),
                r@ == before + s@.take(k as int),
            decreases s@.len() - k,
        {
            r.push(s[k]);
            assert(s@.take(k + 1) =~= s@.take(k as int).push(s@[k as int]));
            k = k + 1;
        }
        assert(s@.take(s@.len() as int) =~= s@);
        assert(ss.take(i + 1).drop_last() =~= ss.take(i as int));
        assert(ss[i as int] == s@);
        i = i + 1;
    }
    assert(ss.take(strs@.len() as int) =~= ss);
    r
}

fn copyright_at(fields: &Vec<ExifEntry>, found: Option<usize>) -> (r: Option<String>)
    requires
        found matches Some(i) ==> i < fields@.len(),
    ensures
        opt_view(r) == copyright_of(
            match found {
                Some(i) => Some(entry_view(fields@[i as int])),
                None => None,
            },
        ),
{
    match found {
        None => None,
        Some(i) => match &fields[i].ascii {
            Some(strs) => string_from_utf8(join_strings(strs)),
            None => Some(String::from_str(fields[i].text.as_str())),
        },
    }
}

/// The plain values of optional fields.
pub open spec fn fields_view(fields: Option<&Vec<ExifEntry>>) -> Option<Seq<FieldView>> {
    match fields {
        Some(v) => Some(entry_views(v@)),
        None => None,
    }
}

/// Metadata with no value at all.
pub fn no_exif_data() -> (r: ExifData)
    ensures
        no_metadata(r),
{
    ExifData {
        width: None,
        height: None,
        date_taken: None,
        camera_make: None,
        camera_model: None,
        lens_model: None,
        focal_length: None,
        aperture: None,
        shutter_speed: None,
        iso: None,
        copyright: None,
    }
}

/// The index of the primary image's field with the tag (`context`,
/// `number`), as `exif::Exif::get_field` finds it.
pub fn find_field(fields: &Vec<ExifEntry>, context: TagContext, number: u16) -> (r: Option<usize>)
    ensures
        match r {
            Some(i) => i < fields@.len() && primary_field(entry_views(fields@), context, number)
                == Some(entry_view(fields@[i as int])),
            None => primary_field(entry_views(fields@), context, number) is None,
        },
{
    let ghost vs = entry_views(fields@);
    let mut i: usize = fields.len();
    assert(vs.take(i as int) =~= vs);
    while i > 0
        invariant
            vs == entry_views(fields@),
            i <= fields@.len(),
            primary_field(vs, context, number) == primary_field(vs.take(i as int), context, number),
        decreases i,
    {
        let e = &fields[i - 1];
        assert(vs.take(i as int).drop_last() =~= vs.take(i - 1));
        assert(vs.take(i as int).last() == entry_view(fields@[i - 1]));
        if e.context == context && e.number == number && e.ifd == 0 {
            return Some(i - 1);
        }
        i = i - 1;
    }
    None
}

fn either(a: Option<usize>, b: Option<usize>) -> (r: Option<usize>)
    ensures
        r == first_some(a, b),
{
    match a {
        Some(x) => Some(x),
        None => b,
    }
}

fn uint_at(fields: &Vec<ExifEntry>, found: Option<usize>) -> (r: Option<u32>)
    requires
        found matches Some(i) ==> i < fields@.len(),
    ensures
        r == match found {
            Some(i) => fields@[i as int].uint,
            None => None,
        },
{
    match found {
        Some(i) => fields[i].uint,
        None => None,
    }
}

fn text_at(fields: &Vec<ExifEntry>, found: Option<usize>) -> (r: Option<String>)
    requires
        found matches Some(i) ==> i < fields@.len(),
    ensures
        opt_view(r) == match found {
            Some(i) => Some(fields@[i as int].text@),
            None => None,
        },
{
    match found {
        Some(i) => Some(String::from_str(fields[i].text.as_str())),
        None => None,
    }
}

fn date_worded(t: Option<String>) -> (r: Option<String>)
    ensures
        opt_view(r) == worded(opt_view(t), |s: Seq<char>| date_without_seconds(s)),
{
    match t {
        Some(s) => match last_index_of(s.as_str(), ':') {
            Some(i) => {
                proof {
                    lemma_last_index_bound(s@, ':');
                }
                let c = s.as_str().substring_char(0, i);
                assert(c@ =~= s@.take(i as int));
                Some(String::from_str(c))
            },
            None => Some(s),
        },
        None => None,
    }
}

fn focal_worded(t: Option<String>) -> (r: Option<String>)
    ensures
        opt_view(r) == worded(opt_view(t), |s: Seq<char>| focal_length_text(s)),
{
    match t {
        Some(s) => {
            proof {
                reveal_strlit("mm");
                reveal_strlit(" mm");
                assert("mm"@ =~= seq!['m', 'm']);
            }
            if str_contains(s.as_str(), "mm") {
                Some(s)
            } else {
                let mut u = s;
                push_str(&mut u, " mm");
                Some(u)
            }
        },
        None => None,
    }
}

fn aperture_worded(t: Option<String>) -> (r: Option<String>)
    ensures
        opt_view(r) == worded(opt_view(t), |s: Seq<char>| aperture_text(s)),
{
    match t {
        Some(s) => {
            let mut u = String::from_str("f/");
            push_str(&mut u, s.as_str());
            proof {
                reveal_strlit("f/");
                assert(u@ =~= aperture_text(s@));
            }
            Some(u)
        },
        None => None,
    }
}

fn shutter_worded(t: Option<String>) -> (r: Option<String>)
    ensures
        opt_view(r) == worded(opt_view(t), |s: Seq<char>| shutter_text(s)),
{
    match t {
        Some(s) => {
            proof {
                reveal_strlit("s");
                reveal_strlit(" s");
                assert("s"@ =~= seq!['s']);
            }
            if str_contains(s.as_str(), "s") {
                Some(s)
            } else {
                let mut u = s;
                push_str(&mut u, " s");
                Some(u)
            }
        },
        None => None,
    }
}

fn iso_worded(t: Option<String>) -> (r: Option<String>)
    ensures
        opt_view(r) == worded(opt_view(t), |s: Seq<char>| iso_text(s)),
{
    match t {
        Some(s) => {
            let mut u = String::from_str("ISO ");
            push_str(&mut u, s.as_str());
            proof {
                reveal_strlit("ISO ");
                assert(u@ =~= iso_text(s@));
            }
            Some(u)
        },
        None => None,
    }
}

/// Whether the file header's size has to be read: EXIF lacks the width or
/// the height.
pub fn needs_header_dimensions(fields: &Vec<ExifEntry>) -> (r: bool)
    ensures
        r == (exif_width(entry_views(fields@)) is None || exif_height(entry_views(fields@)) is None),
{
    let px = find_field(fields, TagContext::Exif, PIXEL_X_DIMENSION);
    let iw = find_field(fields, TagContext::Tiff, IMAGE_WIDTH);
    let py = find_field(fields, TagContext::Exif, PIXEL_Y_DIMENSION);
    let il = find_field(fields, TagContext::Tiff, IMAGE_LENGTH);
    uint_at(fields, either(px, iw)).is_none() || uint_at(fields, either(py, il)).is_none()
}

/// The metadata a photo shows, from the fields of its EXIF data (`None`
/// when none was read) and the size in its file header (used only when EXIF
/// lacks the width or the height): each value is taken from the first of its
/// fields that exists (pixel dimensions before image width and length, the
/// original date before the file date) and worded for the photo page.
pub fn exif_data_of(fields: Option<&Vec<ExifEntry>>, header: Option<(u32, u32)>) -> (r: ExifData)
    ensures
        exif_data_matches(fields_view(fields), header, r),
{
    match fields {
        None => no_exif_data(),
        Some(fs) => {
            let px = find_field(fs, TagContext::Exif, PIXEL_X_DIMENSION);
            let iw = find_field(fs, TagContext::Tiff, IMAGE_WIDTH);
            let py = find_field(fs, TagContext::Exif, PIXEL_Y_DIMENSION);
            let il = find_field(fs, TagContext::Tiff, IMAGE_LENGTH);
            let mut width = uint_at(fs, either(px, iw));
            let mut height = uint_at(fs, either(py, il));
            if width.is_none() || height.is_none() {
                if let Some((hw, hh)) = header {
                    width = Some(hw);
                    height = Some(hh);
                }
            }
            let dto = find_field(fs, TagContext::Exif, DATE_TIME_ORIGINAL);
            let dt = find_field(fs, TagContext::Tiff, DATE_TIME);
            let date_taken = date_worded(text_at(fs, either(dto, dt)));
            let make = find_field(fs, TagContext::Tiff, MAKE);
            let model = find_field(fs, TagContext::Tiff, MODEL);
            let lens = find_field(fs, TagContext::Exif, LENS_MODEL);
            let focal = find_field(fs, TagContext::Exif, FOCAL_LENGTH);
            let f_number = find_field(fs, TagContext::Exif, F_NUMBER);
            let exposure = find_field(fs, TagContext::Exif, EXPOSURE_TIME);
            let iso = find_field(fs, TagContext::Exif, PHOTOGRAPHIC_SENSITIVITY);
            let copyright = find_field(fs, TagContext::Tiff, COPYRIGHT);
            ExifData {
                width,
                height,
                date_taken,
                camera_make: text_at(fs, make),
                camera_model: text_at(fs, model),
                lens_model: text_at(fs, lens),
                focal_length: focal_worded(text_at(fs, focal)),
                aperture: aperture_worded(text_at(fs, f_number)),
                shutter_speed: shutter_worded(text_at(fs, exposure)),
                iso: iso_worded(text_at(fs, iso)),
                copyright: copyright_at(fs, copyright),
            }
        },
    }
}

/// Parses the EXIF data of an image file's bytes with
/// `exif::Reader::read_from_container` (TIFF, JPEG, PNG, HEIF and WebP
/// containers) and hands out each of its fields (`exif::Exif::fields`) as
/// plain values: the tag's directory and number, the IFD number, the first
/// value as an unsigned integer (`exif::Value::get_uint(0)`) and the value
/// as `exif::Field::display_value` writes it, and the strings of an ASCII
/// value. `None` when no EXIF data is found or it cannot be parsed. The fields are named, not stated.
#[verifier::external_body]
fn read_exif(bytes: &[u8]) -> (r: Option<Vec<ExifEntry>>)
    ensures
        match r {
            Some(v) => exif_fields(bytes@) == Some(entry_views(v@)),
            None => exif_fields(bytes@) is None,
        },
{
    let data = exif::Reader::new().read_from_container(&mut std::io::Cursor::new(bytes)).ok()?;
    Some(data.fields().map(|f| ExifEntry {
        context: match f.tag.0 {
            exif::Context::Tiff => TagContext::Tiff,
            exif::Context::Exif => TagContext::Exif,
            exif::Context::Gps => TagContext::Gps,
            exif::Context::Interop => TagContext::Interop,
            _ => TagContext::Other,
        },
        number: f.tag.1,
        ifd: f.ifd_num.index(),
        uint: f.value.get_uint(0),
        text: f.display_value().to_string(),
        ascii: match &f.value { exif::Value::Ascii(strs) => Some(strs.clone()), _ => None },
    }).collect())
}

/// The width and height in an image file's header, read by
/// `image::ImageReader::into_dimensions` as the format its extension names
/// (with no decoding limits); `None` when that fails. The values are named,
/// not stated.
#[verifier::external_body]
fn header_dimensions(bytes: &[u8], extension: &str) -> (r: Option<(u32, u32)>)
    ensures
        r == header_size(bytes@, extension@),
{
    match image::ImageFormat::from_extension(extension) {
        Some(format) => {
            let mut reader = image::ImageReader::with_format(std::io::Cursor::new(bytes), format);
            reader.limits(image::Limits::no_limits());
            reader.into_dimensions().ok()
        },
        None => None,
    }
}

/// The fields of the EXIF data in optional file bytes.
pub open spec fn fields_in(bytes: Option<&[u8]>) -> Option<Seq<FieldView>> {
    match bytes {
        Some(b) => exif_fields(b@),
        None => None,
    }
}

/// The header size of optional file bytes.
pub open spec fn header_in(bytes: Option<&[u8]>, extension: Seq<char>) -> Option<(u32, u32)> {
    match bytes {
        Some(b) => header_size(b@, extension),
        None => None,
    }
}

/// The metadata of an image file (its bytes, if they could be read, and its
/// extension), as `exif_data_of` words it from the file's EXIF fields and,
/// when EXIF lacks the width or the height, its header's size. No bytes or
/// no readable EXIF gives no metadata.
pub fn extract_exif_data(bytes: Option<&[u8]>, extension: &str) -> (r: ExifData)
    ensures
        exif_data_matches(fields_in(bytes), header_in(bytes, extension@), r),
{
    match bytes {
        None => no_exif_data(),
        Some(b) => match read_exif(b) {
            None => no_exif_data(),
            Some(fields) => {
                let header = if needs_header_dimensions(&fields) {
                    header_dimensions(b, extension)
                } else {
                    None
                };
                exif_data_of(Some(&fields), header)
            },
        },
    }
}

/// `t` is `s` cut before its last `:` (the seconds of a date and time
/// dropped), or all of `s` when it holds no `:`.
pub open spec fn cut_at_last_colon(s: Seq<char>, t: Seq<char>) -> bool {
    ||| (forall|k: int| 0 <= k < s.len() ==> s[k] != ':') && t == s
    ||| exists|i: int|
        0 <= i < s.len() && s[i] == ':' && (forall|k: int| i < k < s.len() ==> s[k] != ':')
            && t == #[trigger] s.take(i)
}

/// The date a photo shows is its original date and time
/// (`DateTimeOriginal`) when EXIF has one, else its file date and time
/// (`DateTime`), cut before the last `:`; with neither, no date is shown.
pub proof fn lemma_date_taken(fs: Seq<FieldView>, header: Option<(u32, u32)>, d: ExifData)
    requires
        exif_data_matches(Some(fs), header, d),
    ensures
        primary_field(fs, TagContext::Exif, DATE_TIME_ORIGINAL) matches Some(f) ==> (d.date_taken
            matches Some(t) && cut_at_last_colon(f.4, t@)),
        primary_field(fs, TagContext::Tiff, DATE_TIME) matches Some(f) ==> (primary_field(
            fs,
            TagContext::Exif,
            DATE_TIME_ORIGINAL,
        ) is None ==> (d.date_taken matches Some(t) && cut_at_last_colon(f.4, t@))),
        primary_field(fs, TagContext::Exif, DATE_TIME_ORIGINAL) is None && primary_field(
            fs,
            TagContext::Tiff,
            DATE_TIME,
        ) is None ==> d.date_taken is None,
{
    let src = either_field(fs, (TagContext::Exif, DATE_TIME_ORIGINAL), (TagContext::Tiff, DATE_TIME));
    if let Some(f) = src {
        let s = f.4;
        lemma_last_index_bound(s, ':');
        match last_index(s, ':') {
            Some(i) => {
                assert(s.take(i) == date_without_seconds(s));
            },
            None => {},
        }
    }
}

} // verus!
