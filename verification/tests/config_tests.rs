use chrono::Datelike;
use portfolio::config::{
    copyright_text, load_config, load_config_from, LicenseConfig, SectionValue, SiteConfig,
    DEFAULT_IMAGE_LICENSE_NOTE, DEFAULT_LICENSE_FOOTER_TEXT, DEFAULT_SOURCE_URL,
};

#[test]
fn test_site_config_default() {
    let config = SiteConfig::default();

    assert_eq!(config.site_name, "Your Name");
    assert_eq!(config.site_tagline, "Photography");
    assert!(config.copyright().contains("Your Name"));
    assert!(config.copyright().contains("©"));
    assert!(config.sections.is_empty());
}

#[test]
fn test_site_config_default_copyright_has_current_year() {
    let config = SiteConfig::default();
    let current_year = chrono::Local::now().year();

    assert!(config.copyright().contains(&current_year.to_string()));
}

#[test]
fn test_site_config_clone() {
    let config = SiteConfig::default();
    let cloned = config.clone();

    assert_eq!(config.site_name, cloned.site_name);
    assert_eq!(config.site_tagline, cloned.site_tagline);
    assert_eq!(config.copyright(), cloned.copyright());
}

#[test]
fn test_image_license_defaults_to_copyright() {
    let config = SiteConfig::default();

    assert_eq!(config.image_license(), config.copyright());
    assert_eq!(config.image_license_note(), Some(DEFAULT_IMAGE_LICENSE_NOTE));
}

#[test]
fn test_explicit_image_license_suppresses_default_note() {
    let config = SiteConfig {
        license: Some(LicenseConfig {
            images: Some("CC BY-SA 4.0".to_string()),
            ..LicenseConfig::default()
        }),
        ..SiteConfig::default()
    };

    assert_eq!(config.image_license(), "CC BY-SA 4.0");
    assert_eq!(config.image_license_note(), None);
}

#[test]
fn test_source_url_defaults_and_overrides() {
    let config = SiteConfig::default();
    assert_eq!(config.source_url(), DEFAULT_SOURCE_URL);

    let forked = SiteConfig {
        license: Some(LicenseConfig {
            source: Some("https://example.com/fork".to_string()),
            ..LicenseConfig::default()
        }),
        ..SiteConfig::default()
    };
    assert_eq!(forked.source_url(), "https://example.com/fork");
}

#[test]
fn test_license_contact_absent_by_default() {
    assert_eq!(SiteConfig::default().license_contact(), None);

    let config = SiteConfig {
        license: Some(LicenseConfig {
            contact: Some("me@example.com".to_string()),
            ..LicenseConfig::default()
        }),
        ..SiteConfig::default()
    };
    assert_eq!(config.license_contact(), Some("me@example.com"));
}

#[test]
fn test_empty_strings_are_treated_as_unset() {
    let config = SiteConfig {
        license: Some(LicenseConfig {
            contact: Some("   ".to_string()),
            source: Some(String::new()),
            ..LicenseConfig::default()
        }),
        ..SiteConfig::default()
    };

    assert_eq!(config.license_contact(), None);
    assert_eq!(config.source_url(), DEFAULT_SOURCE_URL);
}

#[test]
fn test_license_footer_text_defaults_and_suppression() {
    assert_eq!(
        SiteConfig::default().license_footer_text(),
        Some(DEFAULT_LICENSE_FOOTER_TEXT)
    );

    let renamed = SiteConfig {
        license: Some(LicenseConfig {
            footer_text: Some("Rights".to_string()),
            ..LicenseConfig::default()
        }),
        ..SiteConfig::default()
    };
    assert_eq!(renamed.license_footer_text(), Some("Rights"));

    let hidden = SiteConfig {
        license: Some(LicenseConfig {
            footer_text: Some(String::new()),
            ..LicenseConfig::default()
        }),
        ..SiteConfig::default()
    };
    assert_eq!(hidden.license_footer_text(), None);
}

#[test]
fn test_default_source_url_points_at_the_public_repo() {
    assert_eq!(
        DEFAULT_SOURCE_URL,
        "https://github.com/Davey-Hughes/portfolio"
    );
}

#[test]
fn copyright_line_is_generated_from_name_and_year() {
    assert_eq!(
        copyright_text("Jane Doe", 2024),
        "© 2024 Jane Doe. All rights reserved."
    );
    let config = SiteConfig {
        site_name: "Jane Doe".to_string(),
        ..SiteConfig::default()
    };
    assert_eq!(
        config.copyright_for_year(1999),
        "© 1999 Jane Doe. All rights reserved."
    );
    assert_eq!(
        config.image_license_for_year(1999),
        config.copyright_for_year(1999)
    );
}

#[test]
fn explicit_copyright_wins_over_generated_line() {
    let config = SiteConfig {
        site_copyright: Some("© Someone".to_string()),
        ..SiteConfig::default()
    };
    assert_eq!(config.copyright(), "© Someone");
    assert_eq!(config.copyright_for_year(2001), "© Someone");
    assert_eq!(config.image_license(), "© Someone");
}

#[test]
fn title_defaults_to_site_name() {
    let config = SiteConfig::default();
    assert_eq!(config.title(), "Your Name");
    let titled = SiteConfig {
        site_title: Some("My Photos".to_string()),
        ..SiteConfig::default()
    };
    assert_eq!(titled.title(), "My Photos");
}

#[test]
fn settings_are_trimmed() {
    let config = SiteConfig {
        license: Some(LicenseConfig {
            contact: Some("  me@example.com \n".to_string()),
            source: Some(" https://example.com/src ".to_string()),
            footer_text: Some("  Rights ".to_string()),
            ..LicenseConfig::default()
        }),
        ..SiteConfig::default()
    };
    assert_eq!(config.license_contact(), Some("me@example.com"));
    assert_eq!(config.source_url(), "https://example.com/src");
    assert_eq!(config.license_footer_text(), Some("Rights"));
}

#[test]
fn section_values_give_display_text_and_url() {
    let simple = SectionValue::Simple("hello".to_string());
    assert_eq!(simple.display(), "hello");
    assert_eq!(simple.url(), None);
    assert!(simple.is_simple());

    let link = SectionValue::Link {
        display: "My site".to_string(),
        url: "https://example.com".to_string(),
    };
    assert_eq!(link.display(), "My site");
    assert_eq!(link.url(), Some("https://example.com"));
    assert!(!link.is_simple());
}

#[test]
fn missing_config_file_gives_defaults() {
    let config = load_config_from(None);
    assert_eq!(config.site_name, "Your Name");
    assert!(config.license.is_none());
    assert!(config.gallery_order.is_empty());

    let parsed = SiteConfig {
        site_name: "John Doe Photography".to_string(),
        ..SiteConfig::default()
    };
    let loaded = load_config_from(Some(parsed));
    assert_eq!(loaded.site_name, "John Doe Photography");
    assert!(loaded.image_license().contains("John Doe Photography"));
    assert!(loaded.image_license().contains("All rights reserved"));

    assert_eq!(load_config().site_tagline, "Photography");
}
