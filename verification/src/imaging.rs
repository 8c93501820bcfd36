//! Serving compressed images: decoding a source image, shrinking it to the
//! requested width and encoding it as lossy WebP, and the steps of serving
//! an image through the on-disk cache.

use vstd::prelude::*;
use crate::image_cache::{
    cache_file_name, cache_filename, cache_is_fresh, extension_of, is_image_ext, is_image_extension,
    path_extension, strip_last_dot, strip_last_dot_of,
};
use crate::text::{lowercase, to_lowercase};
use crate::gallery::string_views;
use crate::image_params::{resolve, ImageParams};
use crate::server::{relative_path, strip_path_prefix};

verus! {

/// The lossy WebP (at `quality`) of the RGBA pixels of the image that
/// `image` decodes from `bytes` as the format its extension names; `None`
/// when decoding or encoding fails. Decoding, resizing and encoding read
/// nothing but their arguments.
pub uninterp spec fn image_webp_rgba(bytes: Seq<u8>, extension: Seq<char>, quality: u8) -> Option<Seq<u8>>;

/// As `image_webp_rgba`, from the RGB pixels.
pub uninterp spec fn image_webp_rgb(bytes: Seq<u8>, extension: Seq<char>, quality: u8) -> Option<Seq<u8>>;

/// As `image_webp_rgba`, after shrinking the image to `width` pixels.
pub uninterp spec fn image_webp_rgba_resized(bytes: Seq<u8>, extension: Seq<char>, width: u32, quality: u8) -> Option<Seq<u8>>;

/// As `image_webp_rgb`, after shrinking the image to `width` pixels.
pub uninterp spec fn image_webp_rgb_resized(bytes: Seq<u8>, extension: Seq<char>, width: u32, quality: u8) -> Option<Seq<u8>>;

/// As `image_webp_rgba`, for a JPEG XL image decoded by `jxl_oxide`.
pub uninterp spec fn jxl_webp_rgba(bytes: Seq<u8>, quality: u8) -> Option<Seq<u8>>;

/// As `jxl_webp_rgba`, from the RGB pixels.
pub uninterp spec fn jxl_webp_rgb(bytes: Seq<u8>, quality: u8) -> Option<Seq<u8>>;

/// As `jxl_webp_rgba`, after shrinking the image to `width` pixels.
pub uninterp spec fn jxl_webp_rgba_resized(bytes: Seq<u8>, width: u32, quality: u8) -> Option<Seq<u8>>;

/// As `jxl_webp_rgb`, after shrinking the image to `width` pixels.
pub uninterp spec fn jxl_webp_rgb_resized(bytes: Seq<u8>, width: u32, quality: u8) -> Option<Seq<u8>>;

/// The width of the image `image` decodes from `bytes` (as the format
/// `image::ImageFormat::from_extension` names for `extension`) and whether
/// its colour type has an alpha channel; `None` when decoding fails.
pub uninterp spec fn image_facts(bytes: Seq<u8>, extension: Seq<char>) -> Option<(u32, bool)>;

/// The same for a JPEG XL image decoded by `jxl_oxide`.
pub uninterp spec fn jxl_facts(bytes: Seq<u8>) -> Option<(u32, bool)>;

/// The contents of optional bytes.
pub open spec fn bytes_view(r: Option<Vec<u8>>) -> Option<Seq<u8>> {
    match r {
        Some(v) => Some(v@),
        None => None,
    }
}

/// Decodes `bytes` with `image::ImageReader::decode` (the format that
/// `image::ImageFormat::from_extension` names for `extension`, no decoding
/// limits) and gives the image's width (`GenericImageView::width`) and
/// whether its colour type has an alpha channel (`ColorType::has_alpha`).
/// The values are named, not stated.
#[verifier::external_body]
fn image_source_facts(bytes: &[u8], extension: &str) -> (r: Option<(u32, bool)>)
    ensures
        r == image_facts(bytes@, extension@),
{
    let format = image::ImageFormat::from_extension(extension)?;
    let mut reader = image::ImageReader::with_format(std::io::Cursor::new(bytes), format);
    reader.limits(image::Limits::no_limits());
    let img = reader.decode().ok()?;
    Some((image::GenericImageView::width(&img), img.color().has_alpha()))
}

/// Decodes JPEG XL `bytes` with `jxl_oxide::integration::JxlDecoder` and
/// `image::DynamicImage::from_decoder` and gives the image's width and
/// whether its colour type has an alpha channel. The values are named, not
/// stated.
#[verifier::external_body]
fn jxl_source_facts(bytes: &[u8]) -> (r: Option<(u32, bool)>)
    ensures
        r == jxl_facts(bytes@),
{
    let decoder = jxl_oxide::integration::JxlDecoder::new(std::io::Cursor::new(bytes)).ok()?;
    let img = image::DynamicImage::from_decoder(decoder).ok()?;
    Some((image::GenericImageView::width(&img), img.color().has_alpha()))
}

/// Decodes `bytes` with `image::ImageReader::decode` (the format
/// `image::ImageFormat::from_extension` names for `extension`, no limits), and
/// encodes it as lossy WebP with `to_rgba8` and `webp::Encoder::from_rgba`,
/// `encode_simple` at `quality`. `None` when a step fails. The bytes are named,
/// not stated.
#[verifier::external_body]
fn image_rgba_webp(bytes: &[u8], extension: &str, quality: u8) -> (r: Option<Vec<u8>>)
    ensures
        bytes_view(r) == image_webp_rgba(bytes@, extension@, quality),
{
    let format = image::ImageFormat::from_extension(extension)?;
    let mut reader = image::ImageReader::with_format(std::io::Cursor::new(bytes), format);
    reader.limits(image::Limits::no_limits());
    let img = reader.decode().ok()?;
    let px = img.to_rgba8();
    let mem = webp::Encoder::from_rgba(px.as_raw(), px.width(), px.height())
        .encode_simple(false, quality.into()).ok()?;
    Some(mem.to_vec())
}

/// Decodes `bytes` with `image::ImageReader::decode` (the format
/// `image::ImageFormat::from_extension` names for `extension`, no limits), and
/// encodes it as lossy WebP with `to_rgb8` and `webp::Encoder::from_rgb`,
/// `encode_simple` at `quality`. `None` when a step fails. The bytes are named,
/// not stated.
#[verifier::external_body]
fn image_rgb_webp(bytes: &[u8], extension: &str, quality: u8) -> (r: Option<Vec<u8>>)
    ensures
        bytes_view(r) == image_webp_rgb(bytes@, extension@, quality),
{
    let format = image::ImageFormat::from_extension(extension)?;
    let mut reader = image::ImageReader::with_format(std::io::Cursor::new(bytes), format);
    reader.limits(image::Limits::no_limits());
    let img = reader.decode().ok()?;
    let px = img.to_rgb8();
    let mem = webp::Encoder::from_rgb(px.as_raw(), px.width(), px.height())
        .encode_simple(false, quality.into()).ok()?;
    Some(mem.to_vec())
}

/// Decodes `bytes` with `image::ImageReader::decode` (the format
/// `image::ImageFormat::from_extension` names for `extension`, no limits),
/// `image::DynamicImage::resize` to `width` pixels with unbounded height
/// (Lanczos3), and encodes it as lossy WebP with `to_rgba8` and
/// `webp::Encoder::from_rgba`, `encode_simple` at `quality`. `None` when a step
/// fails. The bytes are named, not stated.
#[verifier::external_body]
fn image_rgba_webp_resized(bytes: &[u8], extension: &str, width: u32, quality: u8) -> (r: Option<Vec<u8>>)
    ensures
        bytes_view(r) == image_webp_rgba_resized(bytes@, extension@, width, quality),
{
    let format = image::ImageFormat::from_extension(extension)?;
    let mut reader = image::ImageReader::with_format(std::io::Cursor::new(bytes), format);
    reader.limits(image::Limits::no_limits());
    let img = reader.decode().ok()?;
    let img = img.resize(width, u32::MAX, image::imageops::FilterType::Lanczos3);
    let px = img.to_rgba8();
    let mem = webp::Encoder::from_rgba(px.as_raw(), px.width(), px.height())
        .encode_simple(false, quality.into()).ok()?;
    Some(mem.to_vec())
}

/// Decodes `bytes` with `image::ImageReader::decode` (the format
/// `image::ImageFormat::from_extension` names for `extension`, no limits),
/// `image::DynamicImage::resize` to `width` pixels with unbounded height
/// (Lanczos3), and encodes it as lossy WebP with `to_rgb8` and
/// `webp::Encoder::from_rgb`, `encode_simple` at `quality`. `None` when a step
/// fails. The bytes are named, not stated.
#[verifier::external_body]
fn image_rgb_webp_resized(bytes: &[u8], extension: &str, width: u32, quality: u8) -> (r: Option<Vec<u8>>)
    ensures
        bytes_view(r) == image_webp_rgb_resized(bytes@, extension@, width, quality),
{
    let format = image::ImageFormat::from_extension(extension)?;
    let mut reader = image::ImageReader::with_format(std::io::Cursor::new(bytes), format);
    reader.limits(image::Limits::no_limits());
    let img = reader.decode().ok()?;
    let img = img.resize(width, u32::MAX, image::imageops::FilterType::Lanczos3);
    let px = img.to_rgb8();
    let mem = webp::Encoder::from_rgb(px.as_raw(), px.width(), px.height())
        .encode_simple(false, quality.into()).ok()?;
    Some(mem.to_vec())
}

/// Decodes `bytes` with `jxl_oxide::integration::JxlDecoder` and
/// `image::DynamicImage::from_decoder`, and encodes it as lossy WebP with
/// `to_rgba8` and `webp::Encoder::from_rgba`, `encode_simple` at `quality`.
/// `None` when a step fails. The bytes are named, not stated.
#[verifier::external_body]
fn jxl_rgba_webp(bytes: &[u8], quality: u8) -> (r: Option<Vec<u8>>)
    ensures
        bytes_view(r) == jxl_webp_rgba(bytes@, quality),
{
    let decoder = jxl_oxide::integration::JxlDecoder::new(std::io::Cursor::new(bytes)).ok()?;
    let img = image::DynamicImage::from_decoder(decoder).ok()?;
    let px = img.to_rgba8();
    let mem = webp::Encoder::from_rgba(px.as_raw(), px.width(), px.height())
        .encode_simple(false, quality.into()).ok()?;
    Some(mem.to_vec())
}

/// Decodes `bytes` with `jxl_oxide::integration::JxlDecoder` and
/// `image::DynamicImage::from_decoder`, and encodes it as lossy WebP with
/// `to_rgb8` and `webp::Encoder::from_rgb`, `encode_simple` at `quality`.
/// `None` when a step fails. The bytes are named, not stated.
#[verifier::external_body]
fn jxl_rgb_webp(bytes: &[u8], quality: u8) -> (r: Option<Vec<u8>>)
    ensures
        bytes_view(r) == jxl_webp_rgb(bytes@, quality),
{
    let decoder = jxl_oxide::integration::JxlDecoder::new(std::io::Cursor::new(bytes)).ok()?;
    let img = image::DynamicImage::from_decoder(decoder).ok()?;
    let px = img.to_rgb8();
    let mem = webp::Encoder::from_rgb(px.as_raw(), px.width(), px.height())
        .encode_simple(false, quality.into()).ok()?;
    Some(mem.to_vec())
}

/// Decodes `bytes` with `jxl_oxide::integration::JxlDecoder` and
/// `image::DynamicImage::from_decoder`, `image::DynamicImage::resize` to
/// `width` pixels with unbounded height (Lanczos3), and encodes it as lossy
/// WebP with `to_rgba8` and `webp::Encoder::from_rgba`, `encode_simple` at
/// `quality`. `None` when a step fails. The bytes are named, not stated.
#[verifier::external_body]
fn jxl_rgba_webp_resized(bytes: &[u8], width: u32, quality: u8) -> (r: Option<Vec<u8>>)
    ensures
        bytes_view(r) == jxl_webp_rgba_resized(bytes@, width, quality),
{
    let decoder = jxl_oxide::integration::JxlDecoder::new(std::io::Cursor::new(bytes)).ok()?;
    let img = image::DynamicImage::from_decoder(decoder).ok()?;
    let img = img.resize(width, u32::MAX, image::imageops::FilterType::Lanczos3);
    let px = img.to_rgba8();
    let mem = webp::Encoder::from_rgba(px.as_raw(), px.width(), px.height())
        .encode_simple(false, quality.into()).ok()?;
    Some(mem.to_vec())
}

/// Decodes `bytes` with `jxl_oxide::integration::JxlDecoder` and
/// `image::DynamicImage::from_decoder`, `image::DynamicImage::resize` to
/// `width` pixels with unbounded height (Lanczos3), and encodes it as lossy
/// WebP with `to_rgb8` and `webp::Encoder::from_rgb`, `encode_simple` at
/// `quality`. `None` when a step fails. The bytes are named, not stated.
#[verifier::external_body]
fn jxl_rgb_webp_resized(bytes: &[u8], width: u32, quality: u8) -> (r: Option<Vec<u8>>)
    ensures
        bytes_view(r) == jxl_webp_rgb_resized(bytes@, width, quality),
{
    let decoder = jxl_oxide::integration::JxlDecoder::new(std::io::Cursor::new(bytes)).ok()?;
    let img = image::DynamicImage::from_decoder(decoder).ok()?;
    let img = img.resize(width, u32::MAX, image::imageops::FilterType::Lanczos3);
    let px = img.to_rgb8();
    let mem = webp::Encoder::from_rgb(px.as_raw(), px.width(), px.height())
        .encode_simple(false, quality.into()).ok()?;
    Some(mem.to_vec())
}

/// Whether an image `image_width` pixels wide is shrunk to `width`: only
/// images wider than that are.
pub fn needs_resize(image_width: u32, width: u32) -> (r: bool)
    ensures
        r == (image_width > width),
{
    image_width > width
}

/// Whether a file extension names a JPEG XL file.
pub fn is_jxl(extension: &str) -> (r: bool)
    ensures
        r == (extension@ == seq!['j', 'x', 'l']),
{
    proof {
        reveal_strlit("jxl");
        assert("jxl"@ =~= seq!['j', 'x', 'l']);
    }
    crate::text::str_eq(extension, "jxl")
}

/// The compressed image of a source file's bytes: decoded (JPEG XL by its
/// own decoder, other formats by the one their extension names), shrunk to
/// `width` when wider, and encoded as WebP at `quality` from its RGBA pixels
/// when it has an alpha channel, from its RGB pixels otherwise. `None` when
/// a step fails.
pub open spec fn compressed(bytes: Seq<u8>, extension: Seq<char>, width: u32, quality: u8) -> Option<Seq<u8>> {
    if extension == seq!['j', 'x', 'l'] {
        match jxl_facts(bytes) {
            None => None,
            Some((w, alpha)) => if w > width {
                if alpha {
                    jxl_webp_rgba_resized(bytes, width, quality)
                } else {
                    jxl_webp_rgb_resized(bytes, width, quality)
                }
            } else if alpha {
                jxl_webp_rgba(bytes, quality)
            } else {
                jxl_webp_rgb(bytes, quality)
            },
        }
    } else {
        match image_facts(bytes, extension) {
            None => None,
            Some((w, alpha)) => if w > width {
                if alpha {
                    image_webp_rgba_resized(bytes, extension, width, quality)
                } else {
                    image_webp_rgb_resized(bytes, extension, width, quality)
                }
            } else if alpha {
                image_webp_rgba(bytes, extension, quality)
            } else {
                image_webp_rgb(bytes, extension, quality)
            },
        }
    }
}

/// A source image is shrunk to the requested width exactly when it is wider
/// than that width, and never otherwise (it is not scaled up): for a source
/// that decodes to an image `w` pixels wide, with or without alpha, the
/// compressed image is the resized encoding at `width` when `w > width`, and
/// the encoding at the image's own size when `w <= width`. RGBA pixels are
/// encoded exactly when the image has an alpha channel.
pub proof fn lemma_only_wider_sources_are_shrunk(
    bytes: Seq<u8>,
    extension: Seq<char>,
    width: u32,
    quality: u8,
    w: u32,
    alpha: bool,
)
    ensures
        extension != seq!['j', 'x', 'l'] && image_facts(bytes, extension) == Some((w, alpha)) ==> {
            &&& w > width && alpha ==> compressed(bytes, extension, width, quality)
                == image_webp_rgba_resized(bytes, extension, width, quality)
            &&& w > width && !alpha ==> compressed(bytes, extension, width, quality)
                == image_webp_rgb_resized(bytes, extension, width, quality)
            &&& w <= width && alpha ==> compressed(bytes, extension, width, quality)
                == image_webp_rgba(bytes, extension, quality)
            &&& w <= width && !alpha ==> compressed(bytes, extension, width, quality)
                == image_webp_rgb(bytes, extension, quality)
        },
        extension == seq!['j', 'x', 'l'] && jxl_facts(bytes) == Some((w, alpha)) ==> {
            &&& w > width && alpha ==> compressed(bytes, extension, width, quality)
                == jxl_webp_rgba_resized(bytes, width, quality)
            &&& w > width && !alpha ==> compressed(bytes, extension, width, quality)
                == jxl_webp_rgb_resized(bytes, width, quality)
            &&& w <= width && alpha ==> compressed(bytes, extension, width, quality)
                == jxl_webp_rgba(bytes, quality)
            &&& w <= width && !alpha ==> compressed(bytes, extension, width, quality)
                == jxl_webp_rgb(bytes, quality)
        },
        extension != seq!['j', 'x', 'l'] && image_facts(bytes, extension) is None ==> compressed(
            bytes,
            extension,
            width,
            quality,
        ) is None,
        extension == seq!['j', 'x', 'l'] && jxl_facts(bytes) is None ==> compressed(
            bytes,
            extension,
            width,
            quality,
        ) is None,
{
}

/// The compressed image of a source file: decoded (JPEG XL by its own
/// decoder, other formats by the one their extension names), shrunk to
/// `width` when wider, and encoded as WebP at `quality` (RGBA when the image
/// has an alpha channel, RGB otherwise). `None` when the source cannot be
/// decoded or encoded.
pub fn process_image(bytes: &[u8], extension: &str, width: u32, quality: u8) -> (r: Option<Vec<u8>>)
    ensures
        bytes_view(r) == compressed(bytes@, extension@, width, quality),
{
    if is_jxl(extension) {
        match jxl_source_facts(bytes) {
            None => None,
            Some((w, alpha)) => if needs_resize(w, width) {
                if alpha {
                    jxl_rgba_webp_resized(bytes, width, quality)
                } else {
                    jxl_rgb_webp_resized(bytes, width, quality)
                }
            } else if alpha {
                jxl_rgba_webp(bytes, quality)
            } else {
                jxl_rgb_webp(bytes, quality)
            },
        }
    } else {
        match image_source_facts(bytes, extension) {
            None => None,
            Some((w, alpha)) => if needs_resize(w, width) {
                if alpha {
                    image_rgba_webp_resized(bytes, extension, width, quality)
                } else {
                    image_rgb_webp_resized(bytes, extension, width, quality)
                }
            } else if alpha {
                image_rgba_webp(bytes, extension, quality)
            } else {
                image_rgb_webp(bytes, extension, quality)
            },
        }
    }
}


/// The extensions a source image may have, in the order they are looked for.
pub open spec fn source_extensions() -> Seq<Seq<char>> {
    seq![
        seq!['j', 'p', 'g'],
        seq!['j', 'p', 'e', 'g'],
        seq!['j', 'x', 'l'],
        seq!['a', 'v', 'i', 'f'],
        seq!['w', 'e', 'b', 'p'],
        seq!['p', 'n', 'g'],
        seq!['g', 'i', 'f'],
    ]
}

/// The file name of the source image with path `p` (relative to the images
/// directory, without extension) and the `k`-th source extension.
pub open spec fn candidate_name(p: Seq<char>, k: int) -> Seq<char> {
    p + seq!['.'] + source_extensions()[k]
}

/// The file names that may hold the source image of `p`, in the order they
/// are looked for.
pub open spec fn candidate_names(p: Seq<char>) -> Seq<Seq<char>> {
    Seq::new(source_extensions().len(), |k: int| candidate_name(p, k))
}

/// The source extensions, as strings.
fn extension_list() -> (r: Vec<&'static str>)
    ensures
        r@.len() == source_extensions().len(),
        forall|k: int| 0 <= k < r@.len() ==> #[trigger] r@[k]@ == source_extensions()[k],
{
    proof {
        reveal_strlit("jpg");
        reveal_strlit("jpeg");
        reveal_strlit("jxl");
        reveal_strlit("avif");
        reveal_strlit("webp");
        reveal_strlit("png");
        reveal_strlit("gif");
        assert("jpg"@ =~= seq!['j', 'p', 'g']);
        assert("jpeg"@ =~= seq!['j', 'p', 'e', 'g']);
        assert("jxl"@ =~= seq!['j', 'x', 'l']);
        assert("avif"@ =~= seq!['a', 'v', 'i', 'f']);
        assert("webp"@ =~= seq!['w', 'e', 'b', 'p']);
        assert("png"@ =~= seq!['p', 'n', 'g']);
        assert("gif"@ =~= seq!['g', 'i', 'f']);
    }
    vec!["jpg", "jpeg", "jxl", "avif", "webp", "png", "gif"]
}

/// `p` followed by a dot and `ext`.
fn with_extension(p: &str, ext: &str) -> (r: String)
    ensures
        r@ == p@ + seq!['.'] + ext@,
{
    let mut r = p.to_owned();
    r.push('.');
    crate::text::push_str(&mut r, ext);
    r
}

/// The file names that may hold the source image of `path_without_ext`.
pub fn image_candidates(path_without_ext: &str) -> (r: Vec<String>)
    ensures
        r@.len() == candidate_names(path_without_ext@).len(),
        forall|k: int| 0 <= k < r@.len() ==> #[trigger] r@[k]@ == candidate_names(path_without_ext@)[k],
{
    let exts = extension_list();
    let mut r: Vec<String> = Vec::new();
    let mut k: usize = 0;
    while k < exts.len()
        invariant
            k <= exts@.len(),
            exts@.len() == source_extensions().len(),
            forall|j: int| 0 <= j < exts@.len() ==> #[trigger] exts@[j]@ == source_extensions()[j],
            r@.len() == k,
            forall|j: int| 0 <= j < k ==> #[trigger] r@[j]@ == candidate_name(path_without_ext@, j),
        decreases exts@.len() - k,
    {
        r.push(with_extension(path_without_ext, exts[k]));
        k = k + 1;
    }
    r
}

/// Where serving a compressed image stands.
#[derive(Clone, Copy, Debug, PartialEq, Eq)]
pub enum CachePhase {
    /// Nothing done yet.
    Start,
    /// Waiting to learn which candidate source file exists.
    Locating,
    /// Waiting for the cache file's existence and the modification times.
    Checking,
    /// Waiting for the cache file's bytes.
    ReadingCache,
    /// Waiting for the source file's bytes.
    ReadingSource,
    /// Waiting for the encoded image to be written to the cache.
    Saving,
    /// The reply has been given.
    Done,
}

/// What the caller learned from the last action.
#[derive(Clone, Debug, PartialEq)]
pub enum CacheEvent {
    /// Serving begins.
    Begin,
    /// The position among the candidates of the first source file that
    /// exists inside the images directory, if any.
    SourceFound(Option<usize>),
    /// Whether the cache file exists, and the modification times (in
    /// nanoseconds from the Unix epoch) of source and cache file, when known.
    CacheChecked { exists: bool, source_modified: Option<i128>, cache_modified: Option<i128> },
    /// The cache file's bytes, or `None` when it could not be read.
    CacheRead(Option<Vec<u8>>),
    /// The source file's bytes, or `None` when it could not be read.
    SourceRead(Option<Vec<u8>>),
    /// The cache file was written (or writing failed; the image is served
    /// either way).
    Saved,
}

/// What the caller is to do next.
#[derive(Clone, Debug, PartialEq)]
pub enum CacheAction {
    /// Find the first of these files (relative to the images directory) that
    /// exists and lies inside it.
    FindSource(Vec<String>),
    /// Check the cache file with this name against the source found.
    CheckCache(String),
    /// Read the cache file with this name.
    ReadCache(String),
    /// Read the source file with this name (relative to the images directory).
    ReadSource(String),
    /// Write these bytes to the cache file with this name.
    Save(String, Vec<u8>),
    /// Answer with these bytes, or with nothing when the image cannot be served.
    Reply(Option<Vec<u8>>),
}

/// Serving one compressed image: which source, at which width and quality,
/// and how far it has got.
pub struct CacheJob {
    pub path_without_ext: String,
    pub width: u32,
    pub quality: u8,
    pub phase: CachePhase,
    /// The position among the candidates of the source file found.
    pub source: Option<usize>,
    /// The encoded image, once it has been made.
    pub encoded: Option<Vec<u8>>,
}

impl CacheJob {
    /// A job that has not begun.
    pub fn new(path_without_ext: String, width: u32, quality: u8) -> (r: Self)
        ensures
            r.path_without_ext@ == path_without_ext@,
            r.width == width,
            r.quality == quality,
            r.phase == CachePhase::Start,
            r.source is None,
            r.encoded is None,
    {
        CacheJob { path_without_ext, width, quality, phase: CachePhase::Start, source: None, encoded: None }
    }

    /// The phases and the facts recorded agree.
    pub open spec fn wf(self) -> bool {
        &&& (self.phase == CachePhase::Checking || self.phase == CachePhase::ReadingCache
            || self.phase == CachePhase::ReadingSource) ==> (self.source matches Some(k) && k
            < source_extensions().len())
        &&& self.phase == CachePhase::Saving ==> self.encoded is Some
    }
}

/// Whether `event` answers the action given in phase `phase`.
pub open spec fn accepts(phase: CachePhase, event: CacheEvent) -> bool {
    match phase {
        CachePhase::Start => event is Begin,
        CachePhase::Locating => event matches CacheEvent::SourceFound(found) && (found matches Some(
            k,
        ) ==> k < source_extensions().len()),
        CachePhase::Checking => event is CacheChecked,
        CachePhase::ReadingCache => event is CacheRead,
        CachePhase::ReadingSource => event is SourceRead,
        CachePhase::Saving => event is Saved,
        CachePhase::Done => false,
    }
}

/// The cache file name of a job.
pub open spec fn job_cache_file(job: CacheJob) -> Seq<char> {
    cache_file_name(job.path_without_ext@, job.width, job.quality)
}

/// One step of serving a compressed image: from `old_job`, on `event`, the
/// job becomes `new_job` and the caller is asked to do `action`.
pub open spec fn cache_step(
    old_job: CacheJob,
    event: CacheEvent,
    new_job: CacheJob,
    action: CacheAction,
) -> bool {
    &&& new_job.wf()
    &&& new_job.path_without_ext@ == old_job.path_without_ext@
    &&& new_job.width == old_job.width
    &&& new_job.quality == old_job.quality
    &&& match event {
        CacheEvent::Begin => {
            &&& new_job.phase == CachePhase::Locating
            &&& action matches CacheAction::FindSource(c) && c@.len() == candidate_names(
                old_job.path_without_ext@,
            ).len() && forall|k: int|
                0 <= k < c@.len() ==> #[trigger] c@[k]@ == candidate_names(
                    old_job.path_without_ext@,
                )[k]
        },
        CacheEvent::SourceFound(None) => {
            &&& new_job.phase == CachePhase::Done
            &&& action == CacheAction::Reply(None)
        },
        CacheEvent::SourceFound(Some(k)) => {
            &&& new_job.phase == CachePhase::Checking
            &&& new_job.source == Some(k)
            &&& action matches CacheAction::CheckCache(f) && f@ == job_cache_file(old_job)
        },
        CacheEvent::CacheChecked { exists, source_modified, cache_modified } => if exists && (
        match (source_modified, cache_modified) {
            (Some(s), Some(c)) => c >= s,
            _ => true,
        }) {
            &&& new_job.phase == CachePhase::ReadingCache
            &&& new_job.source == old_job.source
            &&& action matches CacheAction::ReadCache(f) && f@ == job_cache_file(old_job)
        } else {
            &&& new_job.phase == CachePhase::ReadingSource
            &&& new_job.source == old_job.source
            &&& action matches CacheAction::ReadSource(f) && f@ == candidate_name(
                old_job.path_without_ext@,
                old_job.source->0 as int,
            )
        },
        CacheEvent::CacheRead(Some(data)) => {
            &&& new_job.phase == CachePhase::Done
            &&& action matches CacheAction::Reply(Some(d)) && d@ == data@
        },
        CacheEvent::CacheRead(None) => {
            &&& new_job.phase == CachePhase::ReadingSource
            &&& new_job.source == old_job.source
            &&& action matches CacheAction::ReadSource(f) && f@ == candidate_name(
                old_job.path_without_ext@,
                old_job.source->0 as int,
            )
        },
        CacheEvent::SourceRead(None) => {
            &&& new_job.phase == CachePhase::Done
            &&& action == CacheAction::Reply(None)
        },
        CacheEvent::SourceRead(Some(b)) => match compressed(
            b@,
            source_extensions()[old_job.source->0 as int],
            old_job.width,
            old_job.quality,
        ) {
            Some(d) => {
                &&& new_job.phase == CachePhase::Saving
                &&& action matches CacheAction::Save(f, a) && f@ == job_cache_file(old_job) && a@ == d
                &&& new_job.encoded matches Some(e) && e@ == d
            },
            None => {
                &&& new_job.phase == CachePhase::Done
                &&& action == CacheAction::Reply(None)
            },
        },
        CacheEvent::Saved => {
            &&& new_job.phase == CachePhase::Done
            &&& action matches CacheAction::Reply(Some(d)) && d@ == old_job.encoded->0@
        },
    }
}

/// Advances serving a compressed image by one step: given what the last
/// action found, says what to do next. The source is the first candidate
/// that exists; a cache file is served when it exists, is no older than the
/// source (or either time is unknown) and can be read; otherwise the source
/// is read, decoded, shrunk and encoded, and the result is saved to the
/// cache and served. A missing or unreadable source, or one that cannot be
/// encoded, is answered with nothing.
pub fn process_and_cache_image(job: &mut CacheJob, event: CacheEvent) -> (action: CacheAction)
    requires
        old(job).wf(),
        accepts(old(job).phase, event),
    ensures
        cache_step(*old(job), event, *final(job), action),
{
    match event {
        CacheEvent::Begin => {
            job.phase = CachePhase::Locating;
            CacheAction::FindSource(image_candidates(job.path_without_ext.as_str()))
        },
        CacheEvent::SourceFound(None) => {
            job.phase = CachePhase::Done;
            CacheAction::Reply(None)
        },
        CacheEvent::SourceFound(Some(k)) => {
            job.source = Some(k);
            job.phase = CachePhase::Checking;
            CacheAction::CheckCache(cache_filename(job.path_without_ext.as_str(), job.width, job.quality))
        },
        CacheEvent::CacheChecked { exists, source_modified, cache_modified } => {
            if exists && cache_is_fresh(source_modified, cache_modified) {
                job.phase = CachePhase::ReadingCache;
                CacheAction::ReadCache(cache_filename(job.path_without_ext.as_str(), job.width, job.quality))
            } else {
                job.phase = CachePhase::ReadingSource;
                CacheAction::ReadSource(source_name(job))
            }
        },
        CacheEvent::CacheRead(Some(data)) => {
            job.phase = CachePhase::Done;
            CacheAction::Reply(Some(data))
        },
        CacheEvent::CacheRead(None) => {
            job.phase = CachePhase::ReadingSource;
            CacheAction::ReadSource(source_name(job))
        },
        CacheEvent::SourceRead(None) => {
            job.phase = CachePhase::Done;
            CacheAction::Reply(None)
        },
        CacheEvent::SourceRead(Some(bytes)) => {
            let k = job.source.unwrap();
            let exts = extension_list();
            match process_image(bytes.as_slice(), exts[k], job.width, job.quality) {
                Some(data) => {
                    let copy = copy_bytes(&data);
                    job.encoded = Some(data);
                    job.phase = CachePhase::Saving;
                    CacheAction::Save(cache_filename(job.path_without_ext.as_str(), job.width, job.quality), copy)
                },
                None => {
                    job.phase = CachePhase::Done;
                    CacheAction::Reply(None)
                },
            }
        },
        CacheEvent::Saved => {
            job.phase = CachePhase::Done;
            let data = match &job.encoded {
                Some(d) => copy_bytes(d),
                None => Vec::new(),
            };
            CacheAction::Reply(Some(data))
        },
    }
}

/// The name of the source file a job found.
fn source_name(job: &CacheJob) -> (r: String)
    requires
        job.source matches Some(k) && k < source_extensions().len(),
    ensures
        r@ == candidate_name(job.path_without_ext@, job.source->0 as int),
{
    let exts = extension_list();
    let k = job.source.unwrap();
    with_extension(job.path_without_ext.as_str(), exts[k])
}

/// A copy of a byte vector.
fn copy_bytes(v: &Vec<u8>) -> (r: Vec<u8>)
    ensures
        r@ == v@,
{
    let mut r: Vec<u8> = Vec::new();
    let mut i: usize = 0;
    while i < v.len()
        invariant
            i <= v@.len(),
            r@ == v@.take(i as int),
        decreases v@.len() - i,
    {
        r.push(v[i]);
        assert(r@ =~= v@.take(i + 1));
        i = i + 1;
    }
    assert(v@.take(v@.len() as int) =~= v@);
    r
}


/// The work of warming the cache: the preset to encode with and the images
/// to encode (paths relative to the images directory, without extension).
pub struct PrewarmPlan {
    pub width: u32,
    pub quality: u8,
    pub jobs: Vec<String>,
}

/// Whether a file (by its relative path) is an image: its extension,
/// lower-cased, is a recognised format.
pub open spec fn is_image_file(f: Seq<char>) -> bool {
    path_extension(f) matches Some(e) && is_image_ext(lowercase(e))
}

/// The images among `files`, each cut at its last dot, in order.
pub open spec fn prewarm_jobs(files: Seq<Seq<char>>) -> Seq<Seq<char>> {
    files.filter(|f: Seq<char>| is_image_file(f)).map_values(|f: Seq<char>| strip_last_dot(f))
}

/// What warming the cache does, given every file below the images directory
/// and the valid presets: nothing without a preset; otherwise every image is
/// encoded with the first (default) preset.
pub fn prewarm_cache(files: &Vec<String>, presets: &Vec<(u32, u8)>) -> (r: Option<PrewarmPlan>)
    ensures
        r is None <==> presets@.len() == 0,
        r matches Some(plan) ==> (plan.width, plan.quality) == presets@[0] && string_views(
            plan.jobs@,
        ) == prewarm_jobs(string_views(files@)),
{
    broadcast use Seq::lemma_filter_push;

    if presets.len() == 0 {
        return None;
    }
    let (width, quality) = presets[0];
    let ghost pred = |f: Seq<char>| is_image_file(f);
    let ghost cut = |f: Seq<char>| strip_last_dot(f);
    let mut jobs: Vec<String> = Vec::new();
    let mut i: usize = 0;
    proof {
        assert(string_views(files@).take(0) =~= Seq::<Seq<char>>::empty());
        reveal(Seq::filter);
        assert(string_views(jobs@) =~= Seq::<Seq<char>>::empty().filter(pred).map_values(cut));
    }
    while i < files.len()
        invariant
            i <= files@.len(),
            string_views(jobs@) == string_views(files@).take(i as int).filter(pred).map_values(cut),
            pred == (|f: Seq<char>| is_image_file(f)),
            cut == (|f: Seq<char>| strip_last_dot(f)),
        decreases files@.len() - i,
    {
        let f = files[i].as_str();
        let ghost prev = string_views(files@).take(i as int).filter(pred);
        proof {
            assert(string_views(files@).take(i + 1) =~= string_views(files@).take(i as int).push(
                f@,
            ));
            string_views(files@).take(i as int).lemma_filter_push(f@, pred);
        }
        let image = match extension_of(f) {
            Some(e) => {
                let lower = to_lowercase(e);
                is_image_extension(lower.as_str())
            },
            None => false,
        };
        if image {
            let ghost before = jobs@;
            jobs.push(strip_last_dot_of(f).to_owned());
            proof {
                assert(prev.push(f@).map_values(cut) =~= prev.map_values(cut).push(strip_last_dot(f@)));
                assert(string_views(jobs@) =~= string_views(before).push(strip_last_dot(f@)));
            }
        }
        i = i + 1;
    }
    assert(string_views(files@).take(files@.len() as int) =~= string_views(files@));
    Some(PrewarmPlan { width, quality, jobs })
}


/// A cached image is read only when the cache file exists and is no older
/// than its source (or a modification time is unknown).
pub proof fn lemma_cache_read_only_when_fresh(
    job: CacheJob,
    exists: bool,
    source_modified: Option<i128>,
    cache_modified: Option<i128>,
    next: CacheJob,
    action: CacheAction,
)
    requires
        cache_step(
            job,
            CacheEvent::CacheChecked { exists, source_modified, cache_modified },
            next,
            action,
        ),
        action is ReadCache,
    ensures
        exists,
        match (source_modified, cache_modified) {
            (Some(s), Some(c)) => c >= s,
            _ => true,
        },
{
}

/// The bytes written to the cache are the bytes then served: after the
/// encoded image is handed out to be saved, the reply that follows the save
/// carries the same bytes.
pub proof fn lemma_saved_bytes_are_served(
    job: CacheJob,
    source: Vec<u8>,
    saving: CacheJob,
    save: CacheAction,
    done: CacheJob,
    reply: CacheAction,
)
    requires
        cache_step(job, CacheEvent::SourceRead(Some(source)), saving, save),
        save is Save,
        cache_step(saving, CacheEvent::Saved, done, reply),
    ensures
        reply matches CacheAction::Reply(Some(d)) && d@ == save->Save_1@,
        done.phase == CachePhase::Done,
{
}

/// An image whose source cannot be found is never served.
pub proof fn lemma_missing_source_is_not_served(job: CacheJob, next: CacheJob, action: CacheAction)
    requires
        cache_step(job, CacheEvent::SourceFound(None), next, action),
    ensures
        action == CacheAction::Reply(None),
        next.phase == CachePhase::Done,
{
}

/// Whether a candidate resolved to a path inside the images directory
/// `root` (component-wise, as `Path::starts_with` compares).
pub open spec fn resolved_inside(resolved: Option<String>, root: Seq<char>) -> bool {
    resolved matches Some(p) && strip_path_prefix(p@, root) is Some
}

/// The source file among the candidates, given where each resolved to
/// (`None` when it does not exist): the first that lies inside the images
/// directory, so that a path climbing out of it with `..` is never served.
pub fn find_image_file(resolved: &Vec<Option<String>>, images_root: &str) -> (r: Option<usize>)
    ensures
        r matches Some(k) ==> k < resolved@.len() && resolved_inside(resolved@[k as int], images_root@)
            && forall|j: int| 0 <= j < k ==> !resolved_inside(#[trigger] resolved@[j], images_root@),
        r is None ==> forall|j: int|
            0 <= j < resolved@.len() ==> !resolved_inside(#[trigger] resolved@[j], images_root@),
{
    let mut k: usize = 0;
    while k < resolved.len()
        invariant
            k <= resolved@.len(),
            forall|j: int| 0 <= j < k ==> !resolved_inside(#[trigger] resolved@[j], images_root@),
        decreases resolved@.len() - k,
    {
        if let Some(p) = &resolved[k] {
            if relative_path(p.as_str(), images_root).is_some() {
                return Some(k);
            }
        }
        k = k + 1;
    }
    None
}


/// The job that a request for the compressed image at `image_path` (with
/// its extension) starts, or the validation error it is refused with: the
/// width and quality must resolve to a preset, and the path is cut at its
/// last dot.
pub fn plan_compressed_image(image_path: &str, params: &ImageParams, presets: &Vec<(u32, u8)>) -> (r:
    Result<CacheJob, &'static str>)
    ensures
        match resolve(*params, presets@) {
            Ok((w, q)) => r matches Ok(job) && job.path_without_ext@ == strip_last_dot(image_path@)
                && job.width == w && job.quality == q && job.phase == CachePhase::Start
                && job.source is None && job.encoded is None,
            Err(e) => r == Err::<CacheJob, &'static str>(e),
        },
{
    match params.validate(presets) {
        Ok((width, quality)) => {
            let path = strip_last_dot_of(image_path).to_owned();
            Ok(CacheJob::new(path, width, quality))
        },
        Err(e) => Err(e),
    }
}

} // verus!
