use portfolio::exif::{
    exif_data_of, extract_exif_data, find_field, needs_header_dimensions, no_exif_data, ExifData,
    ExifEntry, TagContext,
};
use portfolio::gallery::{
    build_photo_info, count_images_recursive, default_about_text, discover_gallery_directories,
    find_images_for_gallery, find_images_recursive, format_priority, gallery_slug,
    get_mime_type, image_variant, load_about_content, load_all_gallery_photos,
    load_gallery_photos, load_galleries, load_home_photos, load_navigation, no_overrides,
    order_galleries, photo_groups, apply_overrides,
    photo_slug, photo_title, sort_photos, strip_leading_number_and_dash, subfolder_of,
    url_encode_path, ContentFile, GalleryDir, ImageVariant, ProfileImages, ScannedGallery,
    ScannedPhoto, DEFAULT_ABOUT_TEXT,
};
use portfolio::types::{FocalPoint, GalleryConfig, GalleryInfo, PhotoInfo, PhotoOverrides};

fn no_exif() -> ExifData {
    no_exif_data()
}

fn entry(context: TagContext, number: u16, uint: Option<u32>, text: &str) -> ExifEntry {
    ExifEntry { context, number, ifd: 0, uint, text: text.to_string(), ascii: None }
}

fn variant(rel: &str) -> ImageVariant {
    let ext = rel.rsplit('.').next().unwrap();
    image_variant(rel, ext).unwrap()
}

fn scanned(rels: &[&str]) -> ScannedPhoto {
    let files: Vec<ImageVariant> = rels.iter().map(|r| variant(r)).collect();
    let mut groups = photo_groups(files);
    ScannedPhoto {
        variants: groups.remove(0),
        exif: no_exif(),
        overrides: no_overrides(),
    }
}

fn exts(items: &[&str]) -> Vec<String> {
    items.iter().map(|s| s.to_string()).collect()
}

fn presets() -> Vec<(u32, u8)> {
    portfolio::image_params::ImageParams::get_valid_presets(None)
}

fn dir(name: &str, count: usize) -> GalleryDir {
    GalleryDir {
        name: name.to_string(),
        photo_count: count,
        config: None,
    }
}

fn assert_photo_order(photos: &[PhotoInfo]) {
    if photos.len() > 1 {
        for i in 0..photos.len() - 1 {
            match (&photos[i].subfolder, &photos[i + 1].subfolder) {
                (Some(sf_a), Some(sf_b)) => {
                    if sf_a == sf_b {
                        assert!(photos[i].filename <= photos[i + 1].filename);
                    } else {
                        assert!(sf_a <= sf_b);
                    }
                }
                (Some(_), None) => {
                    panic!("Subfolder photo should not come before root photo");
                }
                (None, Some(_)) => {}
                (None, None) => {
                    assert!(photos[i].filename <= photos[i + 1].filename);
                }
            }
        }
    }
}

#[test]
fn test_default_about_text() {
    let text = default_about_text();
    assert!(!text.is_empty());
    assert!(text.contains("photographer"));
    assert!(text.contains("10 years"));
    assert_eq!(text, DEFAULT_ABOUT_TEXT);
}

#[test]
fn test_load_gallery_photos_nonexistent() {
    let galleries = vec![ScannedGallery {
        dir_name: "Nature".to_string(),
        photos: vec![scanned(&["nature/tree.jpg"])],
    }];
    let result = load_gallery_photos("nonexistent-gallery-12345", &galleries, &presets());
    assert_eq!(result, None);
}

#[test]
fn test_slug_generation_from_filename() {
    let filename = "Test Photo.jpg";
    let ext = "jpg";

    let slug = photo_slug(filename, ext);

    assert_eq!(slug, "test-photo");
}

#[test]
fn test_title_generation_from_filename() {
    let filename = "test-photo_2024.jpg";
    let ext = "jpg";

    let title = photo_title(filename, ext);

    assert_eq!(title, "test photo 2024");
}

#[test]
fn test_strip_leading_number_and_dash() {
    assert_eq!(
        strip_leading_number_and_dash("1 - space_needle.jpg"),
        "space_needle.jpg"
    );
    assert_eq!(
        strip_leading_number_and_dash("42-mountain.jpg"),
        "mountain.jpg"
    );
    assert_eq!(strip_leading_number_and_dash("003 - photo.jpg"), "photo.jpg");
    assert_eq!(
        strip_leading_number_and_dash("regular_photo.jpg"),
        "regular_photo.jpg"
    );
    assert_eq!(
        strip_leading_number_and_dash("photo-2024-test.jpg"),
        "photo-2024-test.jpg"
    );
    assert_eq!(strip_leading_number_and_dash("5-test.jpg"), "test.jpg");
    assert_eq!(strip_leading_number_and_dash("1.5 - photo.jpg"), "photo.jpg");
    assert_eq!(
        strip_leading_number_and_dash("2.3-mountain.jpg"),
        "mountain.jpg"
    );
    assert_eq!(strip_leading_number_and_dash("1.2.3 - test.jpg"), "test.jpg");
    assert_eq!(
        strip_leading_number_and_dash("10.5-sunset.jpg"),
        "sunset.jpg"
    );
}

#[test]
fn test_load_all_gallery_photos_returns_sorted() {
    let galleries = vec![
        ScannedGallery {
            dir_name: "City".to_string(),
            photos: vec![
                scanned(&["city/night/b.jpg"]),
                scanned(&["city/a.jpg"]),
                scanned(&["city/night/a.jpg"]),
            ],
        },
        ScannedGallery {
            dir_name: "Nature Walks".to_string(),
            photos: vec![scanned(&["nature walks/z.png"]), scanned(&["nature walks/c.jpg"])],
        },
    ];
    let photos = load_all_gallery_photos(&galleries, &presets());

    assert_eq!(photos.len(), 5);
    assert_photo_order(&photos);
    assert!(photos.iter().any(|p| p.gallery_name == "nature-walks"));
}

#[test]
fn test_load_galleries_excludes_home() {
    let dirs = vec![dir("home", 4), dir("City", 2), dir("nature", 1)];
    let galleries = load_galleries(&dirs);

    assert!(!galleries.iter().any(|g| g.slug == "home"));
    assert_eq!(galleries.len(), 2);
}

#[test]
fn test_load_galleries_sorted_alphabetically() {
    let dirs = vec![
        dir("portraits", 3),
        dir("City", 2),
        dir("black_and-white", 5),
        dir("Abstract", 1),
    ];
    let galleries = load_galleries(&dirs);

    if galleries.len() > 1 {
        for i in 0..galleries.len() - 1 {
            assert!(galleries[i].name <= galleries[i + 1].name);
        }
    }
    let names: Vec<&str> = galleries.iter().map(|g| g.name.as_str()).collect();
    assert_eq!(names, vec!["Abstract", "City", "black and white", "portraits"]);
}

#[test]
fn test_gallery_info_structure() {
    let gallery = GalleryInfo {
        name: "Test Gallery".to_string(),
        slug: "test-gallery".to_string(),
        photo_count: 10,
        config: None,
    };

    assert_eq!(gallery.name, "Test Gallery");
    assert_eq!(gallery.slug, "test-gallery");
    assert_eq!(gallery.photo_count, 10);
}

#[test]
fn test_discover_gallery_directories_nonexistent() {
    let galleries = discover_gallery_directories(&Vec::new());
    assert!(galleries.is_empty());
}

#[test]
fn discover_gallery_directories_skips_categories() {
    let subdirs = vec![
        "home".to_string(),
        "categories".to_string(),
        "film".to_string(),
    ];
    assert_eq!(
        discover_gallery_directories(&subdirs),
        vec!["home".to_string(), "film".to_string()]
    );
}

#[test]
fn test_extract_exif_data_nonexistent_file() {
    let d = extract_exif_data(None, "jpg");
    assert_eq!(d.width, None);
    assert_eq!(d.height, None);
    assert_eq!(d.date_taken, None);
    assert_eq!(d.camera_make, None);
    assert_eq!(d.camera_model, None);
    assert_eq!(d.lens_model, None);
    assert_eq!(d.focal_length, None);
    assert_eq!(d.aperture, None);
    assert_eq!(d.shutter_speed, None);
    assert_eq!(d.iso, None);
    assert_eq!(d.copyright, None);
}

#[test]
fn extract_exif_data_of_non_image_bytes_is_empty() {
    let d = extract_exif_data(Some(&b"not an image at all"[..]), "jpg");
    assert_eq!(d, no_exif());
}

#[test]
fn exif_values_are_worded_for_the_photo_page() {
    let fields = vec![
        entry(TagContext::Tiff, 0x100, Some(6000), "6000"),
        entry(TagContext::Exif, 0xa003, Some(4000), "4000"),
        entry(TagContext::Tiff, 0x101, Some(1), "1"),
        entry(TagContext::Exif, 0x9003, None, "2024-01-15 10:30:45"),
        entry(TagContext::Tiff, 0x132, None, "2020-01-01 00:00:00"),
        entry(TagContext::Tiff, 0x10f, None, "Canon"),
        entry(TagContext::Tiff, 0x110, None, "EOS R5"),
        entry(TagContext::Exif, 0x920a, None, "50"),
        entry(TagContext::Exif, 0x829d, None, "2.8"),
        entry(TagContext::Exif, 0x829a, None, "1/200"),
        entry(TagContext::Exif, 0x8827, Some(100), "100"),
    ];
    assert!(!needs_header_dimensions(&fields));
    let d = exif_data_of(Some(&fields), Some((1, 1)));
    assert_eq!(d.width, Some(6000));
    assert_eq!(d.height, Some(4000));
    assert_eq!(d.date_taken.as_deref(), Some("2024-01-15 10:30"));
    assert_eq!(d.camera_make.as_deref(), Some("Canon"));
    assert_eq!(d.camera_model.as_deref(), Some("EOS R5"));
    assert_eq!(d.lens_model, None);
    assert_eq!(d.focal_length.as_deref(), Some("50 mm"));
    assert_eq!(d.aperture.as_deref(), Some("f/2.8"));
    assert_eq!(d.shutter_speed.as_deref(), Some("1/200 s"));
    assert_eq!(d.iso.as_deref(), Some("ISO 100"));
}

#[test]
fn header_dimensions_fill_in_missing_exif_dimensions() {
    let fields = vec![
        entry(TagContext::Exif, 0xa002, Some(10), "10"),
        entry(TagContext::Exif, 0x920a, None, "35 mm"),
        entry(TagContext::Exif, 0x829a, None, "2 s"),
    ];
    assert!(needs_header_dimensions(&fields));
    let d = exif_data_of(Some(&fields), Some((300, 200)));
    assert_eq!((d.width, d.height), (Some(300), Some(200)));
    assert_eq!(d.focal_length.as_deref(), Some("35 mm"));
    assert_eq!(d.shutter_speed.as_deref(), Some("2 s"));
    let without_header = exif_data_of(Some(&fields), None);
    assert_eq!((without_header.width, without_header.height), (Some(10), None));
}

#[test]
fn a_present_pixel_dimension_without_integer_hides_the_image_width() {
    let fields = vec![
        entry(TagContext::Exif, 0xa002, None, "wide"),
        entry(TagContext::Tiff, 0x100, Some(640), "640"),
        entry(TagContext::Tiff, 0x101, Some(480), "480"),
    ];
    let d = exif_data_of(Some(&fields), None);
    assert_eq!((d.width, d.height), (None, Some(480)));
}

#[test]
fn fields_of_other_directories_or_thumbnails_are_not_read() {
    let mut thumb = entry(TagContext::Tiff, 0x10f, None, "Thumb");
    thumb.ifd = 1;
    let fields = vec![entry(TagContext::Exif, 0x10f, None, "Exif make"), thumb];
    assert_eq!(find_field(&fields, TagContext::Tiff, 0x10f), None);
    assert_eq!(exif_data_of(Some(&fields), None).camera_make, None);
}

#[test]
fn the_last_of_two_equal_tags_is_read() {
    let fields = vec![
        entry(TagContext::Tiff, 0x10f, None, "First"),
        entry(TagContext::Tiff, 0x10f, None, "Second"),
    ];
    assert_eq!(find_field(&fields, TagContext::Tiff, 0x10f), Some(1));
    assert_eq!(exif_data_of(Some(&fields), None).camera_make.as_deref(), Some("Second"));
}

#[test]
fn no_fields_gives_no_metadata() {
    assert_eq!(exif_data_of(None, Some((5, 5))), no_exif());
}

/// A little-endian TIFF file whose only field is the camera make "Canon".
fn tiff_with_make() -> Vec<u8> {
    let mut b = vec![0x49, 0x49, 0x2a, 0x00, 0x08, 0x00, 0x00, 0x00];
    b.extend_from_slice(&[0x01, 0x00]);
    b.extend_from_slice(&[0x0f, 0x01, 0x02, 0x00, 0x06, 0x00, 0x00, 0x00, 0x1a, 0x00, 0x00, 0x00]);
    b.extend_from_slice(&[0x00, 0x00, 0x00, 0x00]);
    b.extend_from_slice(b"Canon\0");
    b
}

#[test]
fn exif_of_a_tiff_file_is_read() {
    let d = extract_exif_data(Some(&tiff_with_make()), "tif");
    assert_eq!(d.camera_make.as_deref(), Some("\"Canon\""));
    assert_eq!(d.camera_model, None);
    assert_eq!(d.date_taken, None);
}

#[test]
fn mime_types_and_format_priorities() {
    assert_eq!(get_mime_type("jpg"), "image/jpeg");
    assert_eq!(get_mime_type("jpeg"), "image/jpeg");
    assert_eq!(get_mime_type("png"), "image/png");
    assert_eq!(get_mime_type("webp"), "image/webp");
    assert_eq!(get_mime_type("gif"), "image/gif");
    assert_eq!(get_mime_type("jxl"), "image/jxl");
    assert_eq!(get_mime_type("avif"), "image/avif");
    assert_eq!(get_mime_type("tiff"), "application/octet-stream");
    assert_eq!(format_priority("jpg"), 0);
    assert_eq!(format_priority("avif"), 1);
    assert_eq!(format_priority("jxl"), 2);
    assert_eq!(format_priority("webp"), 3);
    assert_eq!(format_priority("png"), 4);
    assert_eq!(format_priority("gif"), 5);
    assert_eq!(format_priority("bmp"), 99);
}

#[test]
fn url_paths_are_encoded_per_segment() {
    assert_eq!(
        url_encode_path("home/1 - sunset & sea.jpg"),
        "home/1%20-%20sunset%20%26%20sea.jpg"
    );
    assert_eq!(url_encode_path("café/é.jpg"), "caf%C3%A9/%C3%A9.jpg");
}

#[test]
fn variants_of_one_photo_are_grouped_in_priority_order() {
    assert!(image_variant("home/notes.txt", "txt").is_none());
    let v = image_variant("home/Sunset.JPG", "JPG").unwrap();
    assert_eq!(v.extension, "jpg");
    assert_eq!(v.base_path, "home/Sunset");
    assert_eq!(v.file_extension, "JPG");

    let files = vec![
        variant("home/sunset.jpg"),
        variant("home/sunset.avif"),
        variant("home/sea.png"),
        variant("home/sunset.webp"),
    ];
    let groups = photo_groups(files);
    assert_eq!(groups.len(), 2);
    let sunset = groups
        .iter()
        .find(|g| g[0].base_path == "home/sunset")
        .unwrap();
    let exts: Vec<&str> = sunset.iter().map(|v| v.extension.as_str()).collect();
    assert_eq!(exts, vec!["jpg", "avif", "webp"]);
}

#[test]
fn photo_info_is_built_from_its_variants() {
    let group = scanned(&["home/trips/1 - old_town.webp", "home/trips/1 - old_town.jpg"]);
    let p = build_photo_info(&group.variants, "home", &group.exif, 2400, 80);
    assert_eq!(
        p.url,
        "/images/compressed/home/trips/1%20-%20old_town.jpg?width=2400&quality=80"
    );
    assert_eq!(p.original_url, "/images/home/trips/1%20-%20old_town.jpg");
    assert_eq!(p.title, "old town");
    assert_eq!(p.slug, "old-town");
    assert_eq!(p.filename, "1 - old_town.jpg");
    assert_eq!(p.subfolder.as_deref(), Some("home/trips"));
    assert_eq!(p.sources.len(), 1);
    assert_eq!(
        p.sources[0].url,
        "/images/compressed/home/trips/1%20-%20old_town.webp?width=2400&quality=80"
    );
    assert_eq!(p.sources[0].mime_type, "image/webp");
    assert_eq!(p.original_sources[0].mime_type, "image/webp");
    assert_eq!(
        p.original_sources[0].url,
        "/images/home/trips/1%20-%20old_town.webp"
    );
}

#[test]
fn subfolders_and_slugs() {
    assert_eq!(subfolder_of("sunset.jpg"), None);
    assert_eq!(subfolder_of("home/a/sunset.jpg").as_deref(), Some("home/a"));
    assert_eq!(gallery_slug("Black And White"), "black-and-white");
    assert_eq!(photo_slug("2 - My_Photo Name.JPG", "JPG"), "my-photo-name");
}

#[test]
fn home_photos_root_first_then_subfolders() {
    let photos = load_home_photos(
        &vec![
            scanned(&["home/z/a.jpg"]),
            scanned(&["home/b.jpg"]),
            scanned(&["home/a.jpg"]),
        ],
        &presets(),
    );
    let names: Vec<&str> = photos.iter().map(|p| p.filename.as_str()).collect();
    assert_eq!(names, vec!["a.jpg", "b.jpg", "a.jpg"]);
    assert!(photos.iter().all(|p| p.gallery_name == "home"));
    assert_photo_order(&photos);
}

#[test]
fn gallery_photos_use_the_gallery_slug() {
    let galleries = vec![
        ScannedGallery {
            dir_name: "Street Life".to_string(),
            photos: vec![scanned(&["street life/b.jpg"]), scanned(&["street life/a.jpg"])],
        },
        ScannedGallery {
            dir_name: "street life".to_string(),
            photos: vec![],
        },
    ];
    let photos = load_gallery_photos("street-life", &galleries, &presets()).unwrap();
    assert_eq!(photos.len(), 2);
    assert_eq!(photos[0].filename, "a.jpg");
    assert!(photos.iter().all(|p| p.gallery_name == "street-life"));
}

#[test]
fn finding_images_appends_to_the_list() {
    let mut photos = Vec::new();
    find_images_recursive(&vec![scanned(&["home/a.jpg"])], &presets(), &mut photos);
    find_images_for_gallery(
        "Film",
        &vec![scanned(&["film/x.png"]), ScannedPhoto { variants: vec![], exif: no_exif(), overrides: no_overrides() }],
        &presets(),
        &mut photos,
    );
    assert_eq!(photos.len(), 2);
    assert_eq!(photos[0].gallery_name, "home");
    assert_eq!(photos[1].gallery_name, "film");
}

#[test]
fn photos_sort_by_subfolder_then_file_name() {
    let mut group = scanned(&["a.jpg"]);
    let a = build_photo_info(&group.variants, "g", &group.exif, 1, 1);
    group = scanned(&["sub/a.jpg"]);
    let sub_a = build_photo_info(&group.variants, "g", &group.exif, 1, 1);
    group = scanned(&["b.jpg"]);
    let b = build_photo_info(&group.variants, "g", &group.exif, 1, 1);
    let sorted = sort_photos(vec![sub_a, b, a]);
    let order: Vec<(Option<&str>, &str)> = sorted
        .iter()
        .map(|p| (p.subfolder.as_deref(), p.filename.as_str()))
        .collect();
    assert_eq!(
        order,
        vec![(None, "a.jpg"), (None, "b.jpg"), (Some("sub"), "a.jpg")]
    );
}

#[test]
fn image_files_are_counted_case_insensitively() {
    let mut count = 0usize;
    let exts: Vec<String> = ["JPG", "png", "txt", "toml", "Webp", "avif", "jxl", "gif", "jpeg"]
        .iter()
        .map(|s| s.to_string())
        .collect();
    count_images_recursive(&exts, &mut count);
    assert_eq!(count, 7);
    count_images_recursive(&vec![], &mut count);
    assert_eq!(count, 7);
}

#[test]
fn test_count_images_recursive() {
    let mut count = 0;
    count_images_recursive(&exts(&["jpg", "png", "webp", "txt"]), &mut count);
    assert_eq!(count, 3);
}

#[test]
fn test_count_images_recursive_nested() {
    let mut count = 0;
    count_images_recursive(&exts(&["jpg", "jpeg", "gif"]), &mut count);
    assert_eq!(count, 3);
}

#[test]
fn test_count_images_recursive_empty_directory() {
    let mut count = 0;
    count_images_recursive(&exts(&[]), &mut count);
    assert_eq!(count, 0);
}

#[test]
fn test_count_images_nonexistent_directory() {
    let mut count = 0;
    count_images_recursive(&Vec::new(), &mut count);
    assert_eq!(count, 0);
}

#[test]
fn galleries_need_photos_and_get_display_names() {
    let mut with_config = dir("my_trip-2024", 3);
    with_config.config = Some(GalleryConfig {
        columns: Some(4),
        row_height: None,
        gap: None,
        use_mosaic: Some(true),
        mosaic_cache_duration: None,
    });
    let galleries = load_galleries(&vec![dir("Empty", 0), with_config, dir("Home", 2)]);
    assert_eq!(galleries.len(), 1);
    assert_eq!(galleries[0].name, "my trip 2024");
    assert_eq!(galleries[0].slug, "my_trip-2024");
    assert_eq!(galleries[0].photo_count, 3);
    assert_eq!(galleries[0].config.as_ref().unwrap().columns, Some(4));
}

#[test]
fn gallery_order_puts_listed_slugs_first() {
    let galleries = load_galleries(&vec![
        dir("portraits", 1),
        dir("nature", 1),
        dir("film", 1),
        dir("city", 1),
    ]);
    let order = vec![
        "film".to_string(),
        "missing".to_string(),
        "city".to_string(),
        "film".to_string(),
    ];
    let ordered = order_galleries(&galleries, &order);
    let slugs: Vec<&str> = ordered.iter().map(|g| g.slug.as_str()).collect();
    assert_eq!(slugs, vec!["film", "city", "nature", "portraits"]);

    let unchanged = order_galleries(&galleries, &vec![]);
    let slugs: Vec<&str> = unchanged.iter().map(|g| g.slug.as_str()).collect();
    assert_eq!(slugs, vec!["city", "film", "nature", "portraits"]);
}

#[test]
fn test_load_about_content_with_default() {
    let about = load_about_content(
        ContentFile::Missing,
        ContentFile::Missing,
        ProfileImages {
            jpg: false,
            jpeg: false,
            png: false,
            webp: false,
        },
    );
    assert_eq!(about.image_url, None);
    assert!(about.content.contains("photographer"));
    assert!(!about.is_html);
}

#[test]
fn test_load_about_content_with_custom_text() {
    let custom_text = "This is my custom about text!";
    let about = load_about_content(
        ContentFile::Missing,
        ContentFile::Text(custom_text.to_string()),
        ProfileImages {
            jpg: false,
            jpeg: false,
            png: false,
            webp: false,
        },
    );
    assert_eq!(about.content, custom_text);
    assert_eq!(about.image_url, None);
}

#[test]
fn test_load_about_content_with_profile_image() {
    let about = load_about_content(
        ContentFile::Missing,
        ContentFile::Text("Custom text".to_string()),
        ProfileImages {
            jpg: true,
            jpeg: false,
            png: false,
            webp: false,
        },
    );
    assert_eq!(about.image_url, Some("/content/profile.jpg".to_string()));
    assert_eq!(about.content, "Custom text");
}

#[test]
fn test_load_about_content_prefers_jpg_over_png() {
    let about = load_about_content(
        ContentFile::Missing,
        ContentFile::Missing,
        ProfileImages {
            jpg: true,
            jpeg: false,
            png: true,
            webp: false,
        },
    );
    assert_eq!(about.image_url, Some("/content/profile.jpg".to_string()));
}

#[test]
fn about_html_wins_and_unreadable_files_fall_back() {
    let about = load_about_content(
        ContentFile::Text("<p>Hi</p>".to_string()),
        ContentFile::Text("ignored".to_string()),
        ProfileImages {
            jpg: false,
            jpeg: false,
            png: false,
            webp: true,
        },
    );
    assert_eq!(about.content, "<p>Hi</p>");
    assert!(about.is_html);
    assert_eq!(about.image_url, Some("/content/profile.webp".to_string()));

    let unreadable = load_about_content(
        ContentFile::Unreadable,
        ContentFile::Missing,
        ProfileImages {
            jpg: false,
            jpeg: false,
            png: true,
            webp: true,
        },
    );
    assert_eq!(unreadable.content, DEFAULT_ABOUT_TEXT);
    assert!(unreadable.is_html);
    assert_eq!(unreadable.image_url, Some("/content/profile.png".to_string()));
}

#[test]
fn equal_photos_of_two_galleries_keep_gallery_order() {
    let galleries = vec![
        ScannedGallery { dir_name: "Zeta".to_string(), photos: vec![scanned(&["a.jpg"])] },
        ScannedGallery { dir_name: "Alpha".to_string(), photos: vec![scanned(&["a.jpg"])] },
    ];
    let photos = load_all_gallery_photos(&galleries, &presets());
    let names: Vec<&str> = photos.iter().map(|p| p.gallery_name.as_str()).collect();
    assert_eq!(names, vec!["zeta", "alpha"]);
}

#[test]
fn galleries_with_equal_names_keep_their_order() {
    let mut first = dir("Same", 1);
    first.photo_count = 3;
    let second = dir("Same", 7);
    let listed = load_galleries(&vec![first, second]);
    let counts: Vec<usize> = listed.iter().map(|g| g.photo_count).collect();
    assert_eq!(counts, vec![3, 7]);
}

#[test]
fn variants_of_equal_priority_keep_file_order() {
    let groups = photo_groups(vec![variant("p.jpeg"), variant("p.avif"), variant("p.jpg")]);
    assert_eq!(groups.len(), 1);
    let order: Vec<&str> = groups[0].iter().map(|v| v.extension.as_str()).collect();
    assert_eq!(order, vec!["jpeg", "jpg", "avif"]);
    let groups = photo_groups(vec![variant("p.jpg"), variant("p.jpeg")]);
    let order: Vec<&str> = groups[0].iter().map(|v| v.extension.as_str()).collect();
    assert_eq!(order, vec!["jpg", "jpeg"]);
}

#[test]
fn a_jpeg_profile_picture_is_found() {
    let about = load_about_content(
        ContentFile::Missing,
        ContentFile::Missing,
        ProfileImages { jpg: false, jpeg: true, png: true, webp: false },
    );
    assert_eq!(about.image_url.as_deref(), Some("/content/profile.jpeg"));
}

#[test]
fn extensions_in_capitals_group_and_title_like_lower_case() {
    let groups = photo_groups(vec![variant("sunset.JPG"), variant("sunset.avif")]);
    assert_eq!(groups.len(), 1);
    assert_eq!(groups[0][0].relative_path, "sunset.JPG");
    assert_eq!(photo_title("IMG_1.JPG", "JPG"), "IMG 1");
    let photo = build_photo_info(&groups[0], "g", &no_exif(), 1200, 80);
    assert_eq!(photo.title, "sunset");
    assert_eq!(photo.slug, "sunset");
}

#[test]
fn a_photo_settings_file_overrides_title_lens_and_focal_point() {
    let mut photo = scanned(&["portrait.jpg"]);
    photo.overrides = PhotoOverrides {
        title: Some("A Better Title".to_string()),
        lens_model: Some("Nikon 50mm f/1.8".to_string()),
        focal_point: Some(FocalPoint::TopCenter),
    };
    let photos = load_home_photos(&vec![photo], &presets());
    assert_eq!(photos[0].title, "A Better Title");
    assert_eq!(photos[0].lens_model.as_deref(), Some("Nikon 50mm f/1.8"));
    assert_eq!(photos[0].focal_point, Some(FocalPoint::TopCenter));
    assert_eq!(photos[0].slug, "portrait");
}

#[test]
fn without_settings_the_photo_keeps_what_its_file_gives() {
    let group = scanned(&["my_photo.jpg"]);
    let base = build_photo_info(&group.variants, "g", &group.exif, 1, 1);
    assert_eq!(base.focal_point, None);
    let same = apply_overrides(base.clone(), no_overrides());
    assert_eq!(same, base);
    let only_focus = apply_overrides(
        base.clone(),
        PhotoOverrides { title: None, lens_model: None, focal_point: Some(FocalPoint::Center) },
    );
    assert_eq!(only_focus.title, "my photo");
    assert_eq!(only_focus.focal_point, Some(FocalPoint::Center));
}

#[test]
fn navigation_lists_configured_galleries_first() {
    let dirs = vec![dir("Portraits", 1), dir("City", 2), dir("Film", 3), dir("Nature", 1)];
    let order = vec!["film".to_string(), "city".to_string()];
    let nav = load_navigation(&dirs, &order);
    let slugs: Vec<&str> = nav.iter().map(|g| g.slug.as_str()).collect();
    assert_eq!(slugs, vec!["film", "city", "nature", "portraits"]);
}

#[test]
fn about_text_splits_into_paragraphs_at_blank_lines() {
    let text = "  First line\nsecond line  \n\n \t \nSecond para\n\n\nThird\n";
    assert_eq!(
        portfolio::gallery::about_paragraphs(text),
        vec!["First line\nsecond line".to_string(), "Second para".to_string(), "Third".to_string()]
    );
    assert!(portfolio::gallery::about_paragraphs("\n \n").is_empty());
    assert_eq!(portfolio::gallery::about_paragraphs("one"), vec!["one".to_string()]);
}

#[test]
fn exif_copyright_joins_ascii_strings_as_utf8() {
    let mut ascii = entry(TagContext::Tiff, 0x8298, None, "\"(c) Ana\", \"Ed\"");
    ascii.ascii = Some(vec![b"(c) Ana ".to_vec(), "Éd".as_bytes().to_vec()]);
    let d = exif_data_of(Some(&vec![ascii]), None);
    assert_eq!(d.copyright.as_deref(), Some("(c) Ana Éd"));
    let mut broken = entry(TagContext::Tiff, 0x8298, None, "x");
    broken.ascii = Some(vec![vec![0xff, 0xfe]]);
    assert_eq!(exif_data_of(Some(&vec![broken]), None).copyright, None);
    let other = entry(TagContext::Tiff, 0x8298, Some(7), "7");
    assert_eq!(exif_data_of(Some(&vec![other]), None).copyright.as_deref(), Some("7"));
}

/// A little-endian TIFF file whose only field is the copyright "Ana".
fn tiff_with_copyright() -> Vec<u8> {
    let mut b = vec![0x49, 0x49, 0x2a, 0x00, 0x08, 0x00, 0x00, 0x00];
    b.extend_from_slice(&[0x01, 0x00]);
    b.extend_from_slice(&[0x98, 0x82, 0x02, 0x00, 0x04, 0x00, 0x00, 0x00]);
    b.extend_from_slice(b"Ana\0");
    b.extend_from_slice(&[0x00, 0x00, 0x00, 0x00]);
    b
}

#[test]
fn exif_copyright_of_a_tiff_file_is_read() {
    let d = extract_exif_data(Some(&tiff_with_copyright()), "tif");
    assert_eq!(d.copyright.as_deref(), Some("Ana"));
}
