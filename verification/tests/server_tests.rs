use std::sync::Arc;

use portfolio::gallery::{build_photo_info, image_variant};
use portfolio::exif::no_exif_data;
use portfolio::server::{
    build_gallery_data, cache_files_matching, cache_filename_needle, plan_invalidation,
    relative_path, wants_mosaic, watch_event_is_relevant, AllPhotosCache, CachedAllPhotos,
    MosaicCache, WatchEvent, WatchEventKind, MOSAIC_DEFAULT_TTL, NON_MOSAIC_TTL,
};
use portfolio::types::{GalleryConfig, PhotoInfo};

fn empty_gallery_data() -> Arc<Vec<String>> {
    Arc::new(Vec::new())
}

fn photo(filename: &str, width: u32, height: u32) -> PhotoInfo {
    let v = image_variant(filename, "jpg").unwrap();
    let mut p = build_photo_info(&vec![v], "film", &no_exif_data(), 2400, 80);
    p.width = Some(width);
    p.height = Some(height);
    p
}

fn mosaic_config() -> GalleryConfig {
    GalleryConfig {
        use_mosaic: Some(true),
        mosaic_cache_duration: Some(3600),
        ..Default::default()
    }
}

fn strings(items: &[&str]) -> Vec<String> {
    items.iter().map(|s| s.to_string()).collect()
}

#[test]
fn build_gallery_data_mosaic_never_drops_photos() {
    let photos: Vec<PhotoInfo> = (0..23)
        .map(|i| {
            let (w, h) = if i % 7 == 0 { (5049, 8911) } else { (8911, 5049) };
            photo(&format!("photo_{i}.jpg"), w, h)
        })
        .collect();
    let config = mosaic_config();

    for placed in 0..=photos.len() {
        let order: Vec<usize> = (0..placed).rev().collect();
        let data = build_gallery_data(photos.clone(), Some(config), Some(order));
        assert_eq!(
            data.photos.len(),
            photos.len(),
            "mosaic build must not drop photos"
        );
        if placed == photos.len() {
            assert!(data.mosaic);
            assert_eq!(data.ttl, 3600);
            assert_eq!(data.photos[0].filename, "photo_22.jpg");
        } else {
            assert!(!data.mosaic);
            assert_eq!(data.ttl, NON_MOSAIC_TTL);
            assert_eq!(data.photos, photos);
        }
    }
}

#[test]
fn plain_galleries_keep_their_order() {
    let photos = vec![photo("a.jpg", 1, 1), photo("b.jpg", 1, 1)];
    let data = build_gallery_data(photos.clone(), None, None);
    assert!(!data.mosaic);
    assert_eq!(data.ttl, 300);
    assert_eq!(data.photos, photos);

    let mut config = mosaic_config();
    config.mosaic_cache_duration = None;
    let data = build_gallery_data(photos.clone(), Some(config), Some(vec![1, 0]));
    assert!(data.mosaic);
    assert_eq!(data.ttl, MOSAIC_DEFAULT_TTL);
    assert_eq!(data.photos[0].filename, "b.jpg");

    assert!(wants_mosaic(2, Some(config)));
    assert!(!wants_mosaic(0, Some(config)));
    assert!(!wants_mosaic(2, Some(GalleryConfig::default())));
    assert!(!wants_mosaic(2, None));
}

#[test]
fn mosaic_cache_set_then_get_returns_arc() {
    let mut cache = MosaicCache::new();
    let data = empty_gallery_data();
    cache.set("home".to_string(), Arc::clone(&data), 3600);
    let got = cache.get("home").expect("entry should be cached");
    assert!(Arc::ptr_eq(&got, &data));
}

#[test]
fn mosaic_cache_get_misses_for_unknown_key() {
    let mut cache = MosaicCache::new();
    cache.set("a".to_string(), empty_gallery_data(), 3600);
    assert!(cache.get("b").is_none());
}

#[test]
fn mosaic_cache_get_evicts_expired_entry() {
    let mut cache = MosaicCache::new();
    cache.set_at("stale".to_string(), empty_gallery_data(), 0, 0);
    assert!(cache.get("stale").is_none());
    assert!(!cache.contains_key("stale"));
}

#[test]
fn mosaic_cache_clear_expired_only_removes_expired() {
    let mut cache = MosaicCache::new();
    let data = empty_gallery_data();
    cache.set("fresh".to_string(), Arc::clone(&data), 3600);
    cache.set_at("stale".to_string(), Arc::clone(&data), 0, 0);
    cache.clear_expired();
    assert!(cache.contains_key("fresh"));
    assert!(!cache.contains_key("stale"));
}

#[test]
fn mosaic_cache_at_fixed_times() {
    let mut cache: MosaicCache<u32> = MosaicCache::new();
    cache.set_at("k".to_string(), 7, 10, 100);
    assert_eq!(cache.get_at("k", 109), Some(7));
    cache.set_at("k".to_string(), 8, 10, 100);
    assert_eq!(cache.get_at("k", 100), Some(8));
    assert_eq!(cache.get_at("k", 110), None);
    assert!(!cache.contains_key("k"));

    cache.set_at("a".to_string(), 1, 5, 0);
    cache.set_at("b".to_string(), 2, 50, 0);
    cache.set_at("c".to_string(), 3, u64::MAX, 10);
    cache.clear_expired_at(5);
    assert!(!cache.contains_key("a"));
    assert_eq!(cache.get_at("b", 5), Some(2));
    assert_eq!(cache.get_at("c", u64::MAX - 1), Some(3));
    cache.clear_all();
    assert!(!cache.contains_key("b"));
}

#[test]
fn all_photos_cache_set_and_get_returns_arc() {
    let mut cache = AllPhotosCache::new();
    let photos = Arc::new(Vec::<PhotoInfo>::new());
    cache.set(Arc::clone(&photos), 600);
    let got = cache.get().expect("entry should be cached");
    assert!(Arc::ptr_eq(&got, &photos));
}

#[test]
fn all_photos_cache_get_evicts_expired_entry() {
    let mut cache = AllPhotosCache::new();
    cache.cached_data = Some(CachedAllPhotos {
        photos: Arc::new(Vec::<PhotoInfo>::new()),
        expires_at: 0,
    });
    assert!(cache.get().is_none());
    assert!(cache.cached_data.is_none());
}

#[test]
fn all_photos_cache_get_returns_none_when_empty() {
    let mut cache: AllPhotosCache<Arc<Vec<PhotoInfo>>> = AllPhotosCache::new();
    assert!(cache.get().is_none());
}

#[test]
fn all_photos_cache_at_fixed_times() {
    let mut cache = AllPhotosCache::new();
    cache.set_at(5u8, 600, 1000);
    assert_eq!(cache.get_at(1599), Some(5));
    assert_eq!(cache.get_at(1600), None);
    assert!(cache.cached_data.is_none());
    cache.set_at(6u8, 600, 0);
    cache.clear_all();
    assert_eq!(cache.get_at(0), None);
}

#[test]
fn cache_filename_needle_uses_w_suffix_for_image_extensions() {
    let needle = cache_filename_needle("/srv/images", "/srv/images/home/sunset.jpg").unwrap();
    assert_eq!(needle, "home_sunset_w");
}

#[test]
fn cache_filename_needle_is_case_insensitive_on_extension() {
    let needle = cache_filename_needle("/srv/images", "/srv/images/home/Sunset.JPG").unwrap();
    assert_eq!(needle, "home_Sunset_w");
}

#[test]
fn cache_filename_needle_uses_broad_suffix_for_non_image() {
    let needle = cache_filename_needle("/srv/images", "/srv/images/travel/gallery.toml").unwrap();
    assert_eq!(needle, "travel_gallery_");
}

#[test]
fn cache_filename_needle_uses_broad_suffix_for_directory() {
    let needle = cache_filename_needle("/srv/images", "/srv/images/travel/iceland").unwrap();
    assert_eq!(needle, "travel_iceland_");
}

#[test]
fn cache_filename_needle_returns_none_outside_root() {
    assert!(cache_filename_needle("/srv/images", "/etc/passwd").is_none());
}

#[test]
fn cache_filename_needle_returns_none_for_root_itself() {
    assert!(cache_filename_needle("/srv/images", "/srv/images").is_none());
}

#[test]
fn relative_paths_go_by_components() {
    assert_eq!(
        relative_path("/srv/images//home/./a.jpg", "/srv/images/").as_deref(),
        Some("home/a.jpg")
    );
    assert_eq!(relative_path("/srv/imagesx/a.jpg", "/srv/images"), None);
    assert_eq!(relative_path("srv/images/a.jpg", "/srv/images"), None);
    assert_eq!(relative_path("/srv/images", "/srv/images").as_deref(), Some(""));
}

#[test]
fn delete_matching_cache_files_removes_only_matches() {
    let names = strings(&[
        "home_sunset_w800_q80_l1.webp",
        "home_sunset_w2400_q80_l1.webp",
        "home_other_w800_q80_l1.webp",
    ]);
    let deleted = cache_files_matching(&names, &strings(&["home_sunset_w"]));
    assert_eq!(deleted.len(), 2);
    assert!(!deleted.contains(&"home_other_w800_q80_l1.webp".to_string()));
}

#[test]
fn delete_matching_cache_files_broad_needle_catches_descendants() {
    let names = strings(&[
        "travel_iceland_glacier_w800_q80_l1.webp",
        "travel_iceland_geyser_w2400_q80_l1.webp",
        "travel_japan_tokyo_w800_q80_l1.webp",
    ]);
    let deleted = cache_files_matching(&names, &strings(&["travel_iceland_"]));
    assert_eq!(deleted.len(), 2);
    assert!(!deleted.contains(&"travel_japan_tokyo_w800_q80_l1.webp".to_string()));
}

#[test]
fn delete_matching_cache_files_handles_missing_cache_dir() {
    let deleted = cache_files_matching(&Vec::new(), &strings(&["anything_w"]));
    assert_eq!(deleted.len(), 0);
}

#[test]
fn watch_event_is_relevant_includes_create_and_remove() {
    assert!(watch_event_is_relevant(&WatchEventKind::Create));
    assert!(watch_event_is_relevant(&WatchEventKind::Remove));
}

#[test]
fn watch_event_is_relevant_includes_data_and_rename_modifies() {
    assert!(watch_event_is_relevant(&WatchEventKind::ModifyData));
    assert!(watch_event_is_relevant(&WatchEventKind::ModifyName));
    assert!(watch_event_is_relevant(&WatchEventKind::ModifyAny));
    assert!(watch_event_is_relevant(&WatchEventKind::ModifyOther));
}

#[test]
fn watch_event_is_relevant_excludes_metadata_modifies() {
    assert!(!watch_event_is_relevant(&WatchEventKind::ModifyMetadata));
}

#[test]
fn watch_event_is_relevant_excludes_access_events() {
    assert!(!watch_event_is_relevant(&WatchEventKind::Access));
}

#[test]
fn watch_event_is_relevant_excludes_any_and_other_top_level() {
    assert!(!watch_event_is_relevant(&WatchEventKind::Any));
    assert!(!watch_event_is_relevant(&WatchEventKind::Other));
}

#[test]
fn invalidation_plans_collect_each_needle_once() {
    let root = "/srv/images";
    let reads = vec![WatchEvent {
        kind: WatchEventKind::Access,
        paths: strings(&["/srv/images/home/a.jpg"]),
    }];
    assert_eq!(plan_invalidation(root, &reads), None);
    assert_eq!(plan_invalidation(root, &Vec::new()), None);

    let events = vec![
        WatchEvent {
            kind: WatchEventKind::ModifyMetadata,
            paths: strings(&["/srv/images/home/skip.jpg"]),
        },
        WatchEvent {
            kind: WatchEventKind::Create,
            paths: strings(&[
                "/srv/images/home/a.jpg",
                "/etc/passwd",
                "/srv/images/home/a.JPG",
                "/srv/images/travel",
            ]),
        },
        WatchEvent {
            kind: WatchEventKind::Remove,
            paths: strings(&["/srv/images/home/a.jpg"]),
        },
    ];
    let needles = plan_invalidation(root, &events).unwrap();
    assert_eq!(needles, strings(&["home_a_w", "travel_"]));

    let outside = vec![WatchEvent {
        kind: WatchEventKind::Remove,
        paths: strings(&["/elsewhere/x.jpg"]),
    }];
    assert_eq!(plan_invalidation(root, &outside), Some(Vec::new()));
}

#[test]
fn an_order_that_repeats_or_misses_a_photo_falls_back_to_the_grid() {
    let photos = vec![photo("a.jpg", 1, 1), photo("b.jpg", 1, 1)];
    for order in [vec![0, 0], vec![1, 2], vec![0]] {
        let data = build_gallery_data(photos.clone(), Some(mosaic_config()), Some(order));
        assert!(!data.mosaic);
        assert_eq!(data.ttl, NON_MOSAIC_TTL);
        assert_eq!(data.photos, photos);
    }
    assert!(portfolio::server::order_names_each_once(&vec![1, 0], 2));
    assert!(!portfolio::server::order_names_each_once(&vec![1, 1], 2));
}
