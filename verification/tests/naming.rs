use kawa_library::codes::{
    build_target_file_name, compact_code_from_text, default_processing_options, extension_of,
    file_stem_of, is_system_folder, is_video_extension, normalize_archive_code, normalize_suffix,
    normalize_uncensored_suffix, uncensored_name, ArchiveCodeError,
};

#[test]
fn video_extensions_are_exact() {
    for ext in ["mp4", "mkv", "avi", "wmv", "mov", "ts", "m4v"] {
        assert!(is_video_extension(ext));
    }
    assert!(!is_video_extension("MP4"));
    assert!(!is_video_extension("jpg"));
    assert!(!is_video_extension(""));
}

#[test]
fn system_folders_are_recognised() {
    assert!(is_system_folder("_backup"));
    assert!(is_system_folder("system volume information"));
    assert!(is_system_folder("$Recycle.Bin"));
    assert!(!is_system_folder("Actor_"));
    assert!(!is_system_folder(""));
}

#[test]
fn default_options_match_the_settings_page() {
    let o = default_processing_options();
    assert!(o.move_to_appreciation && o.rename_enabled && o.uppercase && o.normalize_dash);
    assert!(!o.normalize_uncensored_suffix);
    assert!(o.remove_at_prefix && o.skip_if_exists);
    assert!(!o.delete_source_folder_after_move);
}

#[test]
fn stems_and_extensions_of_paths() {
    assert_eq!(file_stem_of("/a/b/SSNI-025.mp4"), Some("SSNI-025".to_string()));
    assert_eq!(extension_of("/a/b/SSNI-025.mp4"), Some("mp4".to_string()));
    assert_eq!(file_stem_of("/a/.hidden"), Some(".hidden".to_string()));
    assert_eq!(extension_of("/a/.hidden"), None);
    assert_eq!(extension_of("/a/archive.tar.gz"), Some("gz".to_string()));
}

#[test]
fn suffixes_get_a_dash_before_letters() {
    assert_eq!(normalize_suffix("C"), "-C");
    assert_eq!(normalize_suffix("1080p"), "-1080p");
    assert_eq!(normalize_suffix("-C"), "-C");
    assert_eq!(normalize_suffix(""), "");
}

#[test]
fn uncensored_tags() {
    assert_eq!(uncensored_name("MIDV-119", false), "MIDV-119-U");
    assert_eq!(uncensored_name("MIDV-119", true), "MIDV-119-UC");
    assert_eq!(normalize_uncensored_suffix("SSNI-025"), "SSNI-025");
    assert_eq!(normalize_uncensored_suffix("midv119-uncensored"), "MIDV-119-U");
}

#[test]
fn target_names_keep_the_extension() {
    let options = default_processing_options();
    assert_eq!(build_target_file_name("ssni025.mkv", &options), "SSNI-025.mkv");
    let mut off = options;
    off.rename_enabled = false;
    assert_eq!(build_target_file_name("ssni025.mkv", &off), "ssni025.mkv");
}

#[test]
fn archive_code_errors() {
    let err = normalize_archive_code("holiday photos.jpg").unwrap_err();
    assert_eq!(err, ArchiveCodeError::NoCode);
    assert_eq!(err.message(), "没有识别到番号");
    assert_eq!(normalize_archive_code("ssni_025.mp4").unwrap(), "SSNI-025");
    assert_eq!(normalize_archive_code("hhd800.com@ssni_025.mp4").unwrap(), "HHD-800");
}

#[test]
fn compact_codes() {
    assert_eq!(compact_code_from_text("siro-5664"), "SIRO5664");
    assert_eq!(compact_code_from_text("FC2-PPV 123"), "FC2PPV123");
    assert_eq!(compact_code_from_text("--"), "");
}
