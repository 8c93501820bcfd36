//! Shared data types of the portfolio: photos, galleries, grid layout
//! settings and About-page content.

use vstd::prelude::*;

verus! {

/// An image source with its URL and MIME type, for a `<picture>` element.
#[derive(Clone, Debug, PartialEq)]
pub struct ImageSource {
    pub url: String,
    pub mime_type: String,
}

/// Metadata and URLs of one photo of the portfolio.
#[derive(Clone, Debug, PartialEq)]
pub struct PhotoInfo {
    /// Compressed URL of the primary (fallback) image.
    pub url: String,
    /// Full-resolution URL of the primary image.
    pub original_url: String,
    /// Compressed URLs of the alternative formats.
    pub sources: Vec<ImageSource>,
    /// Full-resolution URLs of the alternative formats.
    pub original_sources: Vec<ImageSource>,
    pub title: String,
    pub filename: String,
    pub slug: String,
    /// The gallery the photo belongs to.
    pub gallery_name: String,
    /// The folder below the gallery root that holds the photo, if any.
    pub subfolder: Option<String>,
    pub width: Option<u32>,
    pub height: Option<u32>,
    pub date_taken: Option<String>,
    pub camera_make: Option<String>,
    pub camera_model: Option<String>,
    pub lens_model: Option<String>,
    pub focal_length: Option<String>,
    pub aperture: Option<String>,
    pub shutter_speed: Option<String>,
    pub iso: Option<String>,
    /// The copyright notice in the photo's EXIF data.
    pub copyright: Option<String>,
    /// Which part of the photo stays visible when it is cropped; no value
    /// means the centre.
    pub focal_point: Option<FocalPoint>,
}

/// A cell of the rule-of-thirds grid: the part of a photo that a crop keeps.
#[derive(Clone, Copy, Debug, PartialEq, Eq, Structural)]
pub enum FocalPoint {
    TopLeft,
    TopCenter,
    TopRight,
    CenterLeft,
    Center,
    CenterRight,
    BottomLeft,
    BottomCenter,
    BottomRight,
}

/// The settings of a photo's own TOML file (named after the photo), each
/// overriding what the photo's file gives.
#[derive(Clone, Debug, PartialEq)]
pub struct PhotoOverrides {
    /// Replaces the title taken from the file name.
    pub title: Option<String>,
    /// Replaces the lens read from EXIF.
    pub lens_model: Option<String>,
    /// Where the crop of a thumbnail is centred.
    pub focal_point: Option<FocalPoint>,
}

/// A gallery: its display name, URL slug, photo count and grid settings.
#[derive(Clone, Debug)]
pub struct GalleryInfo {
    pub name: String,
    pub slug: String,
    pub photo_count: usize,
    pub config: Option<GalleryConfig>,
}

/// Grid layout settings of a gallery (`gallery.toml`).
#[derive(Clone, Copy, Debug, PartialEq)]
pub struct GalleryConfig {
    pub columns: Option<u32>,
    pub row_height: Option<u32>,
    pub gap: Option<u32>,
    pub use_mosaic: Option<bool>,
    /// How long a computed mosaic layout is cached, in seconds.
    pub mosaic_cache_duration: Option<u64>,
}

impl Default for GalleryConfig {
    fn default() -> (r: Self)
        ensures
            r.columns == Some(6u32),
            r.row_height == Some(280u32),
            r.gap == Some(8u32),
            r.use_mosaic is None,
            r.mosaic_cache_duration == Some(3600u64),
    {
        GalleryConfig {
            columns: Some(6),
            row_height: Some(280),
            gap: Some(8),
            use_mosaic: None,
            mosaic_cache_duration: Some(3600),
        }
    }
}

/// A cell of the mosaic grid, in CSS grid lines.
#[derive(Clone, Copy, Debug, PartialEq, Eq)]
pub struct MosaicCell {
    pub row_start: u32,
    pub row_end: u32,
    pub col_start: u32,
    pub col_end: u32,
}

/// Content of the About page.
#[derive(Clone, Debug, PartialEq)]
pub struct AboutContent {
    pub image_url: Option<String>,
    pub content: String,
    pub is_html: bool,
}


/// The views of image sources: URL and MIME type of each.
pub open spec fn sources_view(s: Seq<ImageSource>) -> Seq<(Seq<char>, Seq<char>)> {
    s.map_values(|x: ImageSource| (x.url@, x.mime_type@))
}

/// The view of an optional string.
pub open spec fn text_view(o: Option<String>) -> Option<Seq<char>> {
    match o {
        Some(s) => Some(s@),
        None => None,
    }
}

/// `a` and `b` describe the same photo: every field holds the same text or
/// number.
pub open spec fn same_photo(a: PhotoInfo, b: PhotoInfo) -> bool {
    &&& a.url@ == b.url@
    &&& a.original_url@ == b.original_url@
    &&& sources_view(a.sources@) == sources_view(b.sources@)
    &&& sources_view(a.original_sources@) == sources_view(b.original_sources@)
    &&& a.title@ == b.title@
    &&& a.filename@ == b.filename@
    &&& a.slug@ == b.slug@
    &&& a.gallery_name@ == b.gallery_name@
    &&& text_view(a.subfolder) == text_view(b.subfolder)
    &&& a.width == b.width
    &&& a.height == b.height
    &&& text_view(a.date_taken) == text_view(b.date_taken)
    &&& text_view(a.camera_make) == text_view(b.camera_make)
    &&& text_view(a.camera_model) == text_view(b.camera_model)
    &&& text_view(a.lens_model) == text_view(b.lens_model)
    &&& text_view(a.focal_length) == text_view(b.focal_length)
    &&& text_view(a.aperture) == text_view(b.aperture)
    &&& text_view(a.shutter_speed) == text_view(b.shutter_speed)
    &&& text_view(a.iso) == text_view(b.iso)
    &&& text_view(a.copyright) == text_view(b.copyright)
    &&& a.focal_point == b.focal_point
}

fn copy_text(o: &Option<String>) -> (r: Option<String>)
    ensures
        text_view(r) == text_view(*o),
{
    match o {
        Some(s) => Some(s.clone()),
        None => None,
    }
}

fn copy_sources(v: &Vec<ImageSource>) -> (r: Vec<ImageSource>)
    ensures
        sources_view(r@) == sources_view(v@),
{
    let mut r: Vec<ImageSource> = Vec::new();
    let mut i: usize = 0;
    while i < v.len()
        invariant
            i <= v@.len(),
            r@.len() == i,
            sources_view(r@) == sources_view(v@.take(i as int)),
        decreases v@.len() - i,
    {
        let ghost old_r = r@;
        r.push(ImageSource { url: v[i].url.clone(), mime_type: v[i].mime_type.clone() });
        proof {
            assert forall|k: int| 0 <= k < i implies #[trigger] sources_view(r@)[k] == sources_view(
                v@.take(i + 1),
            )[k] by {
                assert(r@[k] == old_r[k]);
                assert(sources_view(old_r)[k] == sources_view(v@.take(i as int))[k]);
            }
            assert(sources_view(r@) =~= sources_view(v@.take(i + 1)));
        }
        i = i + 1;
    }
    assert(v@.take(v@.len() as int) =~= v@);
    r
}

/// A copy of a photo.
pub fn copy_photo(p: &PhotoInfo) -> (r: PhotoInfo)
    ensures
        same_photo(r, *p),
{
    PhotoInfo {
        url: p.url.clone(),
        original_url: p.original_url.clone(),
        sources: copy_sources(&p.sources),
        original_sources: copy_sources(&p.original_sources),
        title: p.title.clone(),
        filename: p.filename.clone(),
        slug: p.slug.clone(),
        gallery_name: p.gallery_name.clone(),
        subfolder: copy_text(&p.subfolder),
        width: p.width,
        height: p.height,
        date_taken: copy_text(&p.date_taken),
        camera_make: copy_text(&p.camera_make),
        camera_model: copy_text(&p.camera_model),
        lens_model: copy_text(&p.lens_model),
        focal_length: copy_text(&p.focal_length),
        aperture: copy_text(&p.aperture),
        shutter_speed: copy_text(&p.shutter_speed),
        iso: copy_text(&p.iso),
        copyright: copy_text(&p.copyright),
        focal_point: p.focal_point,
    }
}

} // verus!
