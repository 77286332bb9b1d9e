use kawa_library::codes::{
    build_code_regexes, build_target_file_name, extract_media_code, is_incomplete_extension,
    normalize_archive_code, normalize_dash, ProcessingOptions,
};

#[test]
fn extracts_common_media_codes() {
    let regexes = build_code_regexes().unwrap();

    assert_eq!(
        extract_media_code("FC2-PPV-3308060-1.mp4", &regexes),
        Some("FC2PPV-3308060".to_string())
    );
    assert_eq!(
        extract_media_code("fc2ppv_4883198-C.mp4", &regexes),
        Some("FC2PPV-4883198".to_string())
    );
    assert_eq!(
        extract_media_code("SSNI025.resolution.mp4", &regexes),
        Some("SSNI-025".to_string())
    );
    assert_eq!(
        extract_media_code("MIKR-089-U.mp4", &regexes),
        Some("MIKR-089".to_string())
    );
}

#[test]
fn ignores_files_without_codes() {
    let regexes = build_code_regexes().unwrap();
    assert_eq!(extract_media_code("readme.txt", &regexes), None);
}

#[test]
fn normalizes_script_rename_cases() {
    assert_eq!(normalize_dash("SSNI025"), "SSNI-025");
    assert_eq!(normalize_dash("300MIUM1357"), "300MIUM-1357");
    assert_eq!(normalize_dash("fc2ppv4883198"), "FC2PPV-4883198");
}

#[test]
fn builds_target_name_from_processing_options() {
    let options = ProcessingOptions {
        move_to_appreciation: true,
        rename_enabled: true,
        uppercase: true,
        normalize_dash: true,
        normalize_uncensored_suffix: false,
        remove_at_prefix: true,
        skip_if_exists: true,
        delete_source_folder_after_move: false,
    };
    assert_eq!(
        build_target_file_name("hhd800.com@snos224u.mp4", &options),
        "SNOS-224-U.mp4"
    );
}

#[test]
fn normalizes_uncensored_processing_suffixes() {
    let options = ProcessingOptions {
        move_to_appreciation: true,
        rename_enabled: true,
        uppercase: true,
        normalize_dash: true,
        normalize_uncensored_suffix: true,
        remove_at_prefix: true,
        skip_if_exists: true,
        delete_source_folder_after_move: false,
    };
    assert_eq!(
        build_target_file_name("MIDV-119-UNCENSORED-NYAP2P.COM.mp4", &options),
        "MIDV-119-U.mp4"
    );
    assert_eq!(
        build_target_file_name("snis255-c-restored.mp4", &options),
        "SNIS-255-UC.mp4"
    );
}

#[test]
fn recognizes_incomplete_extensions() {
    assert!(is_incomplete_extension("xltd"));
    assert!(is_incomplete_extension("PART"));
    assert!(!is_incomplete_extension("mp4"));
}

#[test]
fn normalizes_archive_search_codes_without_suffix_letter() {
    assert_eq!(
        normalize_archive_code("CJOD-138-U.mp4").unwrap(),
        "CJOD-138"
    );
    assert_eq!(
        normalize_archive_code("MIDV-119-UNCENSORED-NYAP2P.COM.mp4").unwrap(),
        "MIDV-119"
    );
    assert_eq!(normalize_archive_code("IPZZ-832.mp4").unwrap(), "IPZZ-832");
}
