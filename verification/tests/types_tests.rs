use portfolio::types::{copy_photo, GalleryConfig, ImageSource, PhotoInfo};

fn sample() -> PhotoInfo {
    PhotoInfo {
        url: "/images/test.jpg".to_string(),
        original_url: "/images/test.jpg".to_string(),
        sources: vec![],
        original_sources: vec![],
        title: "Test Photo".to_string(),
        filename: "test.jpg".to_string(),
        slug: "test-photo".to_string(),
        gallery_name: "home".to_string(),
        subfolder: None,
        width: Some(1920),
        height: Some(1080),
        date_taken: None,
        camera_make: None,
        camera_model: None,
        lens_model: None,
        focal_length: None,
        aperture: None,
        shutter_speed: None,
        iso: None,
        copyright: None,
        focal_point: None,
    }
}

#[test]
fn test_photo_info_clone() {
    let photo = sample();

    let cloned = photo.clone();
    assert_eq!(photo.url, cloned.url);
    assert_eq!(photo.width, cloned.width);
}

#[test]
fn copied_photos_are_equal() {
    let mut photo = sample();
    photo.sources.push(ImageSource {
        url: "/images/compressed/test.webp".to_string(),
        mime_type: "image/webp".to_string(),
    });
    photo.subfolder = Some("trips".to_string());
    photo.iso = Some("ISO 200".to_string());
    assert_eq!(copy_photo(&photo), photo);
}

#[test]
fn gallery_config_defaults() {
    let config = GalleryConfig::default();
    assert_eq!(config.columns, Some(6));
    assert_eq!(config.row_height, Some(280));
    assert_eq!(config.gap, Some(8));
    assert_eq!(config.use_mosaic, None);
    assert_eq!(config.mosaic_cache_duration, Some(3600));
}
