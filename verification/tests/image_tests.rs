use image::ImageEncoder;
use portfolio::image_cache::{
    cache_file_prefix, cache_filename, cache_is_fresh, cleanup_decision, collect_valid_prefixes,
    file_age_days, is_cache_file_old, relative_cache_needle, source_prefix, CleanupAction,
    MAX_CACHE_AGE_SECS,
};
use portfolio::image_params::{
    get_default_image_params, ImageParams, INVALID_COMBINATION, INVALID_WIDTH, NO_PRESETS,
    QUALITY_WITHOUT_WIDTH,
};
use portfolio::imaging::{
    find_image_file, image_candidates, needs_resize, prewarm_cache, process_and_cache_image,
    process_image, CacheAction, CacheEvent, CacheJob, CachePhase,
};

fn defaults() -> Vec<(u32, u8)> {
    ImageParams::get_valid_presets(None)
}

fn strings(items: &[&str]) -> Vec<String> {
    items.iter().map(|s| s.to_string()).collect()
}

#[test]
fn test_validate_with_no_params_uses_default() {
    let params = ImageParams {
        width: None,
        quality: None,
    };
    let result = params.validate(&defaults());
    assert!(result.is_ok());
    assert_eq!(result.unwrap(), (1200, 80));
}

#[test]
fn test_validate_with_valid_width_only() {
    let params = ImageParams {
        width: Some(2400),
        quality: None,
    };
    let result = params.validate(&defaults());
    assert!(result.is_ok());
    assert_eq!(result.unwrap(), (2400, 80));
}

#[test]
fn test_validate_with_invalid_width_only() {
    let params = ImageParams {
        width: Some(1500),
        quality: None,
    };
    let result = params.validate(&defaults());
    assert!(result.is_err());
}

#[test]
fn test_validate_with_quality_only_fails() {
    let params = ImageParams {
        width: None,
        quality: Some(90),
    };
    let result = params.validate(&defaults());
    assert!(result.is_err());
}

#[test]
fn test_validate_with_valid_combination() {
    let params = ImageParams {
        width: Some(3600),
        quality: Some(100),
    };
    let result = params.validate(&defaults());
    assert!(result.is_ok());
    assert_eq!(result.unwrap(), (3600, 100));
}

#[test]
fn test_validate_with_2400_80_combination() {
    let params = ImageParams {
        width: Some(2400),
        quality: Some(80),
    };
    let result = params.validate(&defaults());
    assert!(result.is_ok());
    assert_eq!(result.unwrap(), (2400, 80));
}

#[test]
fn test_validate_with_2400_100_combination() {
    let params = ImageParams {
        width: Some(2400),
        quality: Some(100),
    };
    let result = params.validate(&defaults());
    assert!(result.is_ok());
    assert_eq!(result.unwrap(), (2400, 100));
}

#[test]
fn test_validate_with_invalid_combination() {
    let params = ImageParams {
        width: Some(1200),
        quality: Some(100),
    };
    let result = params.validate(&defaults());
    assert!(result.is_err());
}

#[test]
fn validation_errors_name_the_problem() {
    let p = defaults();
    let both = ImageParams { width: Some(1200), quality: Some(100) };
    assert_eq!(both.validate(&p), Err(INVALID_COMBINATION));
    let width = ImageParams { width: Some(1500), quality: None };
    assert_eq!(width.validate(&p), Err(INVALID_WIDTH));
    let quality = ImageParams { width: None, quality: Some(90) };
    assert_eq!(quality.validate(&p), Err(QUALITY_WITHOUT_WIDTH));
    let none = ImageParams { width: None, quality: None };
    assert_eq!(none.validate(&Vec::new()), Err(NO_PRESETS));
}

#[test]
fn test_env_override_valid() {
    let presets = ImageParams::get_valid_presets(Some("800,70;1600,90"));

    assert_eq!(presets.len(), 2);
    assert!(presets.contains(&(800, 70)));
    assert!(presets.contains(&(1600, 90)));
}

#[test]
fn test_env_override_with_spaces() {
    let presets = ImageParams::get_valid_presets(Some("800, 70 ; 1600 , 90"));

    assert_eq!(presets.len(), 2);
    assert!(presets.contains(&(800, 70)));
    assert!(presets.contains(&(1600, 90)));
}

#[test]
fn test_env_override_invalid_falls_back_to_defaults() {
    let presets = ImageParams::get_valid_presets(Some("invalid,data;nonsense"));

    assert_eq!(presets.len(), 4);
    assert!(presets.contains(&(1200, 80)));
    assert!(presets.contains(&(2400, 80)));
    assert!(presets.contains(&(2400, 100)));
    assert!(presets.contains(&(3600, 100)));
}

#[test]
fn test_env_override_partial_invalid() {
    let presets = ImageParams::get_valid_presets(Some("800,70;invalid;1600,90"));

    assert_eq!(presets.len(), 2);
    assert!(presets.contains(&(800, 70)));
    assert!(presets.contains(&(1600, 90)));
}

#[test]
fn test_validate_with_env_override() {
    let presets = ImageParams::get_valid_presets(Some("800,70;1600,90"));
    let params = ImageParams {
        width: Some(800),
        quality: None,
    };
    let result = params.validate(&presets);

    assert!(result.is_ok());
    assert_eq!(result.unwrap(), (800, 70));
}

#[test]
fn test_default_with_env_override() {
    let presets = ImageParams::get_valid_presets(Some("800,70;1600,90"));
    let params = ImageParams {
        width: None,
        quality: None,
    };
    let result = params.validate(&presets);

    assert!(result.is_ok());
    assert_eq!(result.unwrap(), (800, 70));
}

#[test]
fn preset_values_out_of_range_are_skipped() {
    let presets = ImageParams::get_valid_presets(Some("800,256;+900,+70;4294967296,80;10,1,2"));
    assert_eq!(presets, vec![(900, 70)]);
}

#[test]
fn test_get_default_image_params_defaults() {
    let (width, quality) = get_default_image_params(&defaults());
    assert_eq!(width, 2400);
    assert_eq!(quality, 80);
}

#[test]
fn test_get_default_image_params_custom_width() {
    assert_eq!(get_default_image_params(&defaults()), (2400, 80));
}

#[test]
fn test_get_default_image_params_custom_quality() {
    assert_eq!(get_default_image_params(&defaults()), (2400, 80));
}

#[test]
fn test_get_default_image_params_both_custom() {
    assert_eq!(get_default_image_params(&defaults()), (2400, 80));
}

#[test]
fn test_get_default_image_params_invalid_values() {
    assert_eq!(get_default_image_params(&defaults()), (2400, 80));
}

#[test]
fn default_image_params_follow_the_presets() {
    let presets = ImageParams::get_valid_presets(Some("800,70;2400,90"));
    assert_eq!(get_default_image_params(&presets), (2400, 90));
    let presets = ImageParams::get_valid_presets(Some("800,70"));
    assert_eq!(get_default_image_params(&presets), (2400, 80));
}

#[test]
fn cache_file_prefix_strips_w_q_l_suffix() {
    assert_eq!(
        cache_file_prefix("home_sunset_w2400_q80_l1.webp"),
        Some("home_sunset")
    );
    assert_eq!(
        cache_file_prefix("home_sunset_w4000_q90_l1.webp"),
        Some("home_sunset")
    );
}

#[test]
fn cache_file_prefix_handles_underscore_in_source_name() {
    assert_eq!(
        cache_file_prefix("home_space_needle_w2400_q80_l1.webp"),
        Some("home_space_needle")
    );
}

#[test]
fn cache_file_prefix_handles_w_substring_in_source_name() {
    assert_eq!(
        cache_file_prefix("home_walking_w800_q80_l1.webp"),
        Some("home_walking")
    );
    assert_eq!(
        cache_file_prefix("home_wave_w800_q80_l1.webp"),
        Some("home_wave")
    );
}

#[test]
fn cache_file_prefix_rejects_unknown_pattern() {
    assert_eq!(cache_file_prefix("notes.txt"), None);
    assert_eq!(cache_file_prefix("foo.webp"), None);
    assert_eq!(cache_file_prefix("foo_w_q80_l1.webp"), None);
    assert_eq!(cache_file_prefix("_w2400_q80_l1.webp"), None);
}

#[test]
fn cache_names_round_trip() {
    let name = cache_filename("home/space_needle", 2400, 80);
    assert_eq!(name, "home_space_needle_w2400_q80_l1.webp");
    assert_eq!(cache_file_prefix(&name), Some("home_space_needle"));
    assert_eq!(cache_filename("a\\b", 0, 0), "a_b_w0_q0_l1.webp");
}

#[test]
fn collect_valid_prefixes_walks_recursively() {
    let files = strings(&[
        "home/sunset.jpg",
        "home/space_needle.jpg",
        "travel/iceland/glacier.png",
        "home/notes.txt",
        "home/sunset.webp",
    ]);
    let mut prefixes = collect_valid_prefixes(&files);
    prefixes.sort();
    assert_eq!(
        prefixes,
        strings(&["home_space_needle", "home_sunset", "travel_iceland_glacier"])
    );
    assert_eq!(source_prefix("home/Sunset.JPG").as_deref(), Some("home_Sunset"));
    assert_eq!(source_prefix(".jpg"), None);
}

#[test]
fn cleanup_cache_keeps_caches_for_underscored_source_names() {
    let prefixes = collect_valid_prefixes(&strings(&["home/space_needle.jpg"]));
    assert_eq!(
        cleanup_decision("home_space_needle_w2400_q80_l1.webp", &prefixes, None),
        CleanupAction::Keep
    );
}

#[test]
fn cleanup_cache_removes_orphan_cache_files() {
    let prefixes = collect_valid_prefixes(&Vec::new());
    assert_eq!(
        cleanup_decision("home_deleted_w2400_q80_l1.webp", &prefixes, None),
        CleanupAction::RemoveOrphan
    );
}

#[test]
fn cleanup_cache_leaves_unknown_filenames_alone() {
    let prefixes = collect_valid_prefixes(&Vec::new());
    assert_eq!(
        cleanup_decision("README.txt", &prefixes, Some(u128::MAX)),
        CleanupAction::Keep
    );
}

#[test]
fn old_current_cache_files_are_removed() {
    let prefixes = collect_valid_prefixes(&strings(&["home/a.jpg"]));
    let max = MAX_CACHE_AGE_SECS as u128 * 1_000_000_000;
    assert_eq!(
        cleanup_decision("home_a_w1_q1_l1.webp", &prefixes, Some(max + 1)),
        CleanupAction::RemoveOld
    );
    assert_eq!(
        cleanup_decision("home_a_w1_q1_l1.webp", &prefixes, Some(max)),
        CleanupAction::Keep
    );
}

#[test]
fn is_cache_file_old_compares_against_max_age() {
    assert!(is_cache_file_old(Some(1_000_000_001), 1));
    assert!(!is_cache_file_old(Some(10), 86_400_000_000_000));
    assert!(!is_cache_file_old(None, 0));
    assert_eq!(file_age_days(Some(86_400 * 3 + 5)), 3);
    assert_eq!(file_age_days(None), 0);
}

#[test]
fn cached_copy_is_fresh_unless_source_is_newer() {
    assert!(cache_is_fresh(Some(10), Some(20)));
    assert!(cache_is_fresh(Some(10), Some(10)));
    assert!(!cache_is_fresh(Some(20), Some(10)));
    assert!(cache_is_fresh(None, Some(10)));
    assert!(cache_is_fresh(Some(10), None));
}

#[test]
fn find_image_file_finds_existing_extension() {
    let resolved = vec![None, Some("/srv/images/foo/bar.jpg".to_string())];
    assert_eq!(find_image_file(&resolved, "/srv/images"), Some(1));
}

#[test]
fn find_image_file_returns_none_for_nonexistent() {
    let resolved: Vec<Option<String>> = vec![None, None];
    assert_eq!(find_image_file(&resolved, "/srv/images"), None);
}

#[test]
fn find_image_file_rejects_path_traversal() {
    let inside = vec![Some("/tmp/root/inside/inside.jpg".to_string())];
    assert_eq!(find_image_file(&inside, "/tmp/root/inside"), Some(0));
    let escape = vec![Some("/tmp/root/outside.jpg".to_string())];
    assert_eq!(find_image_file(&escape, "/tmp/root/inside"), None);
    let sibling = vec![Some("/tmp/root/inside2/x.jpg".to_string())];
    assert_eq!(find_image_file(&sibling, "/tmp/root/inside"), None);
}

#[test]
fn candidates_follow_extension_order() {
    assert_eq!(
        image_candidates("home/a"),
        strings(&[
            "home/a.jpg",
            "home/a.jpeg",
            "home/a.jxl",
            "home/a.avif",
            "home/a.webp",
            "home/a.png",
            "home/a.gif"
        ])
    );
}

#[test]
fn relative_needles() {
    assert_eq!(relative_cache_needle("home/sunset.jpg").as_deref(), Some("home_sunset_w"));
    assert_eq!(relative_cache_needle("travel/iceland").as_deref(), Some("travel_iceland_"));
    assert_eq!(relative_cache_needle(""), None);
}

#[test]
fn serving_from_a_fresh_cache() {
    let mut job = CacheJob::new("home/sunset".to_string(), 2400, 80);
    match process_and_cache_image(&mut job, CacheEvent::Begin) {
        CacheAction::FindSource(c) => assert_eq!(c[0], "home/sunset.jpg"),
        other => panic!("unexpected {:?}", other),
    }
    assert_eq!(
        process_and_cache_image(&mut job, CacheEvent::SourceFound(Some(0))),
        CacheAction::CheckCache("home_sunset_w2400_q80_l1.webp".to_string())
    );
    assert_eq!(
        process_and_cache_image(
            &mut job,
            CacheEvent::CacheChecked {
                exists: true,
                source_modified: Some(5),
                cache_modified: Some(9)
            }
        ),
        CacheAction::ReadCache("home_sunset_w2400_q80_l1.webp".to_string())
    );
    assert_eq!(
        process_and_cache_image(&mut job, CacheEvent::CacheRead(Some(vec![1, 2, 3]))),
        CacheAction::Reply(Some(vec![1, 2, 3]))
    );
    assert_eq!(job.phase, CachePhase::Done);
}

#[test]
fn stale_cache_reads_the_source() {
    let mut job = CacheJob::new("a/b".to_string(), 1200, 80);
    process_and_cache_image(&mut job, CacheEvent::Begin);
    process_and_cache_image(&mut job, CacheEvent::SourceFound(Some(5)));
    assert_eq!(
        process_and_cache_image(
            &mut job,
            CacheEvent::CacheChecked {
                exists: true,
                source_modified: Some(9),
                cache_modified: Some(5)
            }
        ),
        CacheAction::ReadSource("a/b.png".to_string())
    );
    assert_eq!(
        process_and_cache_image(&mut job, CacheEvent::SourceRead(Some(b"not an image".to_vec()))),
        CacheAction::Reply(None)
    );
}

#[test]
fn unreadable_cache_and_missing_source() {
    let mut job = CacheJob::new("x".to_string(), 1, 1);
    process_and_cache_image(&mut job, CacheEvent::Begin);
    assert_eq!(
        process_and_cache_image(&mut job, CacheEvent::SourceFound(None)),
        CacheAction::Reply(None)
    );

    let mut job = CacheJob::new("x".to_string(), 1, 1);
    process_and_cache_image(&mut job, CacheEvent::Begin);
    process_and_cache_image(&mut job, CacheEvent::SourceFound(Some(2)));
    process_and_cache_image(
        &mut job,
        CacheEvent::CacheChecked {
            exists: true,
            source_modified: None,
            cache_modified: None,
        },
    );
    assert_eq!(
        process_and_cache_image(&mut job, CacheEvent::CacheRead(None)),
        CacheAction::ReadSource("x.jxl".to_string())
    );
    assert_eq!(
        process_and_cache_image(&mut job, CacheEvent::SourceRead(None)),
        CacheAction::Reply(None)
    );
}

fn tiny_png() -> Vec<u8> {
    let pixels: Vec<u8> = (0..(4 * 3 * 2)).map(|i| (i * 10) as u8).collect();
    let mut out = Vec::new();
    image::codecs::png::PngEncoder::new(&mut out)
        .write_image(&pixels, 4, 2, image::ExtendedColorType::Rgb8)
        .unwrap();
    out
}

#[test]
fn encoding_a_source_saves_then_serves_it() {
    let png = tiny_png();
    let direct = process_image(&png, "png", 2, 80).unwrap();
    assert_eq!(&direct[0..4], b"RIFF");
    assert_eq!(&direct[8..12], b"WEBP");

    let mut job = CacheJob::new("g/p".to_string(), 2, 80);
    process_and_cache_image(&mut job, CacheEvent::Begin);
    process_and_cache_image(&mut job, CacheEvent::SourceFound(Some(5)));
    process_and_cache_image(
        &mut job,
        CacheEvent::CacheChecked {
            exists: false,
            source_modified: None,
            cache_modified: None,
        },
    );
    let saved = match process_and_cache_image(&mut job, CacheEvent::SourceRead(Some(png))) {
        CacheAction::Save(name, data) => {
            assert_eq!(name, "g_p_w2_q80_l1.webp");
            data
        }
        other => panic!("unexpected {:?}", other),
    };
    assert_eq!(job.phase, CachePhase::Saving);
    assert_eq!(
        process_and_cache_image(&mut job, CacheEvent::Saved),
        CacheAction::Reply(Some(saved))
    );
}

#[test]
fn undecodable_sources_give_nothing() {
    assert_eq!(process_image(b"garbage", "jpg", 10, 80), None);
    assert_eq!(process_image(b"garbage", "jxl", 10, 80), None);
    assert_eq!(process_image(b"garbage", "xyz", 10, 80), None);
    assert!(needs_resize(3000, 2400));
    assert!(!needs_resize(2400, 2400));
}

#[test]
fn prewarm_uses_the_first_preset_for_every_image() {
    let files = strings(&["home/a.JPG", "home/notes.txt", "travel/x.y/b.webp", "c.jxl"]);
    let plan = prewarm_cache(&files, &ImageParams::get_valid_presets(Some("800,70;1600,90"))).unwrap();
    assert_eq!((plan.width, plan.quality), (800, 70));
    assert_eq!(plan.jobs, strings(&["home/a", "travel/x.y/b", "c"]));
    assert!(prewarm_cache(&files, &Vec::new()).is_none());
}

/// Serving `source` up to the cache check, which reports `exists` and the
/// two modification times.
fn checked_job(exists: bool, source_modified: i128, cache_modified: i128) -> (CacheJob, CacheAction) {
    let mut job = CacheJob::new("source".to_string(), 1200, 80);
    process_and_cache_image(&mut job, CacheEvent::Begin);
    process_and_cache_image(&mut job, CacheEvent::SourceFound(Some(0)));
    let action = process_and_cache_image(
        &mut job,
        CacheEvent::CacheChecked {
            exists,
            source_modified: Some(source_modified),
            cache_modified: if exists { Some(cache_modified) } else { None },
        },
    );
    (job, action)
}

#[test]
fn try_use_cached_image_returns_data_when_cache_newer() {
    let (mut job, action) = checked_job(true, 100, 120);
    assert_eq!(action, CacheAction::ReadCache("source_w1200_q80_l1.webp".to_string()));
    assert_eq!(
        process_and_cache_image(&mut job, CacheEvent::CacheRead(Some(b"cached".to_vec()))),
        CacheAction::Reply(Some(b"cached".to_vec()))
    );
}

#[test]
fn try_use_cached_image_misses_when_source_newer() {
    let (_, action) = checked_job(true, 120, 100);
    assert_eq!(action, CacheAction::ReadSource("source.jpg".to_string()));
}

#[test]
fn try_use_cached_image_misses_when_cache_absent() {
    let (_, action) = checked_job(false, 100, 0);
    assert_eq!(action, CacheAction::ReadSource("source.jpg".to_string()));
}
