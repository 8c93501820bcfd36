use portfolio::display::{
    back_link, format_aperture, get_social_media_link_from_string, grid_style,
    normalize_display_key, orientation_class_from_dimensions, photo_neighbours, photo_page_url,
    strip_quotes, to_title_case_if_uppercase,
};
use portfolio::exif::no_exif_data;
use portfolio::gallery::{build_photo_info, image_variant};
use portfolio::types::{GalleryConfig, PhotoInfo};

fn photo(rel: &str, gallery: &str) -> PhotoInfo {
    let v = image_variant(rel, "jpg").unwrap();
    build_photo_info(&vec![v], gallery, &no_exif_data(), 2400, 80)
}

#[test]
fn orientation_classes_by_ratio() {
    assert_eq!(orientation_class_from_dimensions(Some(3000), Some(1000)), "wide-landscape");
    assert_eq!(orientation_class_from_dimensions(Some(2500), Some(1000)), "landscape");
    assert_eq!(orientation_class_from_dimensions(Some(1800), Some(1000)), "landscape-square");
    assert_eq!(orientation_class_from_dimensions(Some(1500), Some(1000)), "landscape-square");
    assert_eq!(orientation_class_from_dimensions(Some(1300), Some(1000)), "square");
    assert_eq!(orientation_class_from_dimensions(Some(1000), Some(1000)), "portrait-square");
    assert_eq!(orientation_class_from_dimensions(Some(700), Some(1000)), "portrait");
    assert_eq!(orientation_class_from_dimensions(Some(550), Some(1000)), "tall-portrait");
    assert_eq!(orientation_class_from_dimensions(None, Some(1000)), "square");
    assert_eq!(orientation_class_from_dimensions(Some(5), Some(0)), "wide-landscape");
    assert_eq!(orientation_class_from_dimensions(Some(0), Some(0)), "tall-portrait");
    assert_eq!(
        orientation_class_from_dimensions(Some(u32::MAX), Some(1)),
        "wide-landscape"
    );
}

#[test]
fn quotes_and_apertures() {
    assert_eq!(strip_quotes("\"Canon\""), "Canon");
    assert_eq!(strip_quotes("\"\"x\"\"\""), "x");
    assert_eq!(strip_quotes("\"\""), "");
    assert_eq!(strip_quotes("plain"), "plain");
    assert_eq!(format_aperture("f/2.8"), "ƒ/2.8");
    assert_eq!(format_aperture("f/f/1"), "ƒ/ƒ/1");
    assert_eq!(format_aperture("ff/"), "fƒ/");
    assert_eq!(format_aperture("f"), "f");
}

#[test]
fn capitals_become_title_case() {
    assert_eq!(to_title_case_if_uppercase("NIKON CORPORATION"), "Nikon Corporation");
    assert_eq!(to_title_case_if_uppercase("LEICA SL2 DC VARIO"), "Leica SL2 DC Vario");
    assert_eq!(to_title_case_if_uppercase("FUJIFILM X100V"), "Fujifilm X100V");
    assert_eq!(to_title_case_if_uppercase("Canon EOS R5"), "Canon EOS R5");
    assert_eq!(to_title_case_if_uppercase("  SONY   ALPHA  "), "SONY Alpha");
    assert_eq!(to_title_case_if_uppercase("123"), "123");
    assert_eq!(to_title_case_if_uppercase("A"), "A");
}

#[test]
fn display_keys_are_capitalised() {
    assert_eq!(normalize_display_key("instagram_handle"), "Instagram Handle");
    assert_eq!(normalize_display_key("  email  "), "Email");
    assert_eq!(normalize_display_key("x__y"), "X Y");
    assert_eq!(normalize_display_key(""), "");
}

#[test]
fn social_links() {
    assert_eq!(
        get_social_media_link_from_string("Instagram", "@me"),
        Some(("https://instagram.com/me".to_string(), "@me".to_string()))
    );
    assert_eq!(
        get_social_media_link_from_string("my_instagram", "me"),
        Some(("https://instagram.com/me".to_string(), "me".to_string()))
    );
    assert_eq!(
        get_social_media_link_from_string("instagram", "https://instagram.com/me"),
        None
    );
    assert_eq!(
        get_social_media_link_from_string("GitHub", "https://github.com/octo/repo"),
        Some(("https://github.com/octo".to_string(), "octo".to_string()))
    );
    assert_eq!(
        get_social_media_link_from_string("github", "https://github.com/"),
        None
    );
    assert_eq!(
        get_social_media_link_from_string("github", "@@octo"),
        Some(("https://github.com/octo".to_string(), "octo".to_string()))
    );
    assert_eq!(get_social_media_link_from_string("email", "a@b.c"), None);
}

#[test]
fn photo_pages_link_to_their_neighbours() {
    let photos = vec![
        photo("city/a.jpg", "city"),
        photo("city/b.jpg", "city"),
        photo("home/c.jpg", "home"),
    ];
    assert_eq!(photo_neighbours(&photos, "a"), Some((0, None, Some(1))));
    assert_eq!(photo_neighbours(&photos, "b"), Some((1, Some(0), Some(2))));
    assert_eq!(photo_neighbours(&photos, "c"), Some((2, Some(1), None)));
    assert_eq!(photo_neighbours(&photos, "zzz"), None);
    assert_eq!(photo_page_url(&photos[1]), "/gallery/city/b");
    assert_eq!(back_link("home"), "/");
    assert_eq!(back_link("city"), "/gallery/city");
}

#[test]
fn plain_grid_styles() {
    assert_eq!(grid_style(None), "");
    assert_eq!(
        grid_style(Some(GalleryConfig {
            columns: Some(4),
            row_height: None,
            gap: Some(0),
            use_mosaic: None,
            mosaic_cache_duration: None,
        })),
        "--grid-columns: 4; --grid-row-height: 280px; --grid-gap: 0px;"
    );
}

#[test]
fn very_large_photos_zoom_further() {
    assert_eq!(portfolio::display::max_zoom_for(Some(8001), Some(100)), 20);
    assert_eq!(portfolio::display::max_zoom_for(Some(100), Some(9000)), 20);
    assert_eq!(portfolio::display::max_zoom_for(Some(8000), Some(8000)), 10);
    assert_eq!(portfolio::display::max_zoom_for(None, Some(9000)), 10);
}

#[test]
fn mosaic_cells_are_placed_by_grid_lines() {
    let cell = portfolio::types::MosaicCell { row_start: 1, row_end: 3, col_start: 2, col_end: 5 };
    assert_eq!(
        portfolio::display::mosaic_cell_style(&cell),
        "grid-row: 1 / 3; grid-column: 2 / 5;"
    );
}
