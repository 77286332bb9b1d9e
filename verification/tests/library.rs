use kawa_library::library::{
    actor_dir_for_name, canonical_root, confidence_rank, configured_dir_path,
    configured_top_level_folders, ensure_existing_dir_under_root, ensure_existing_file_under_root,
    ensure_path_under_root, ensure_target_dir_under_root_allow_missing,
    ensure_target_file_under_root, ensure_target_file_under_root_allow_missing,
    is_reserved_actor_dir, match_actor_folder, match_actor_folder_by_contains, push_outcome,
    resolve_configured_dir, sanitize_actor_folder_name, shell_display_path, status_rank,
    target_file_parent, top_level_folder_key, top_level_folder_name, DirectFolder, LibraryError,
    OperationResult,
};

fn folder(name: &str) -> DirectFolder {
    DirectFolder { name: name.to_string(), path: format!("/lib/{name}"), modified_unix: 0 }
}

#[test]
fn names_the_top_level_folder_of_a_file() {
    assert_eq!(top_level_folder_name("/lib", "/lib/Actor/sub/a.mp4"), Some("Actor".to_string()));
    assert_eq!(top_level_folder_name("/lib", "/other/a.mp4"), None);
    assert_eq!(
        top_level_folder_key("/lib", "/lib/Actor/a.mp4"),
        ("Actor".to_string(), "/lib/Actor".to_string())
    );
}

#[test]
fn lists_configured_top_level_folders_once() {
    let paths = vec![
        "/lib/_downloading".to_string(),
        "/lib/_appreciation/x".to_string(),
        "/lib/_downloading/y".to_string(),
        "/elsewhere".to_string(),
    ];
    assert_eq!(
        configured_top_level_folders("/lib", &paths),
        vec!["_downloading".to_string(), "_appreciation".to_string()]
    );
}

#[test]
fn recognises_reserved_actor_folders() {
    assert!(is_reserved_actor_dir("/lib", "/lib"));
    assert!(is_reserved_actor_dir("/lib", "/lib/_downloading/x"));
    assert!(is_reserved_actor_dir("/lib", "/lib/$RECYCLE.BIN"));
    assert!(is_reserved_actor_dir("/lib", "/elsewhere/Actor"));
    assert!(!is_reserved_actor_dir("/lib", "/lib/Actor"));
}

#[test]
fn sanitizes_actor_folder_names() {
    assert_eq!(sanitize_actor_folder_name("  A<b>:c. ").unwrap(), "A_b__c");
    assert_eq!(sanitize_actor_folder_name("..名前..").unwrap(), "名前");
    assert_eq!(sanitize_actor_folder_name(" . . ").unwrap_err(), LibraryError::EmptyActorName);
    assert_eq!(sanitize_actor_folder_name("_hidden").unwrap_err(), LibraryError::ReservedActorName);
    assert_eq!(sanitize_actor_folder_name("_DOWNLOADING").unwrap_err(), LibraryError::ReservedActorName);
    assert_eq!(LibraryError::EmptyActorName.message(), "演员名称为空，无法新建文件夹");
    assert_eq!(LibraryError::ReservedActorName.message(), "演员名称不能是系统目录");
}

#[test]
fn sanitized_names_are_safe_folder_names() {
    for raw in ["a/b\\c", "x\u{7}y", " ...z?* ", "新|名"] {
        let name = sanitize_actor_folder_name(raw).unwrap();
        assert!(!name.is_empty());
        assert!(!name.chars().any(|c| "<>:\"/\\|?*".contains(c) || c.is_control()));
        assert!(!name.starts_with([' ', '.']) && !name.ends_with([' ', '.']));
    }
}

#[test]
fn places_new_actor_folders_under_the_root() {
    assert_eq!(actor_dir_for_name("/lib", " Yui? ").unwrap(), "/lib/Yui_");
    assert_eq!(actor_dir_for_name("/lib", "   ").unwrap_err(), LibraryError::EmptyActorName);
}

#[test]
fn checks_the_library_root() {
    assert_eq!(canonical_root(false, None), Err(LibraryError::RootMissing));
    assert_eq!(canonical_root(true, None), Err(LibraryError::RootUnresolved));
    assert_eq!(canonical_root(true, Some("/lib".to_string())), Ok("/lib".to_string()));
    assert_eq!(LibraryError::RootMissing.message(), "根目录不存在或不是文件夹");
}

#[test]
fn checks_existing_sources_and_folders() {
    assert_eq!(ensure_existing_file_under_root("/lib", None, true), Err(LibraryError::SourceMissing));
    assert_eq!(
        ensure_existing_file_under_root("/lib", Some("/lib/a.mp4".to_string()), false),
        Err(LibraryError::SourceNotFile)
    );
    assert_eq!(
        ensure_existing_file_under_root("/lib", Some("/libx/a.mp4".to_string()), true),
        Err(LibraryError::SourceOutsideLibrary)
    );
    assert_eq!(
        ensure_existing_file_under_root("/lib", Some("/lib/a.mp4".to_string()), true),
        Ok("/lib/a.mp4".to_string())
    );
    assert_eq!(ensure_existing_dir_under_root("/lib", None, true), Err(LibraryError::DirMissing));
    assert_eq!(
        ensure_existing_dir_under_root("/lib", Some("/lib/a".to_string()), false),
        Err(LibraryError::NotADirectory)
    );
    assert_eq!(
        ensure_existing_dir_under_root("/lib", Some("/x".to_string()), true),
        Err(LibraryError::DirOutsideLibrary)
    );
    assert_eq!(LibraryError::SourceOutsideLibrary.message(), "源文件不在库目录内");
}

#[test]
fn checks_targets() {
    assert_eq!(target_file_parent("/lib/a/b.mp4"), Ok("/lib/a".to_string()));
    assert_eq!(target_file_parent("/"), Err(LibraryError::TargetWithoutParent));
    assert_eq!(
        ensure_target_file_under_root("/lib", "/lib/a/b.mp4", None),
        Err(LibraryError::TargetParentMissing)
    );
    assert_eq!(
        ensure_target_file_under_root("/lib", "/lib/a/b.mp4", Some("/tmp".to_string())),
        Err(LibraryError::TargetOutsideLibrary)
    );
    assert_eq!(
        ensure_target_file_under_root("/lib", "/lib/a/b.mp4", Some("/lib/a".to_string())),
        Ok("/lib/a/b.mp4".to_string())
    );
    assert_eq!(
        ensure_target_dir_under_root_allow_missing("/lib", "/lib/../x", Some("/lib"), Some("/lib".to_string()), false, false),
        Err(LibraryError::TargetDirRelative)
    );
    assert_eq!(
        ensure_target_dir_under_root_allow_missing("/lib", "/lib/New/Sub", Some("/lib"), Some("/lib".to_string()), false, false),
        Ok("/lib/New/Sub".to_string())
    );
    assert_eq!(
        ensure_target_dir_under_root_allow_missing("/lib", "/lib/a.mp4", Some("/lib/a.mp4"), Some("/lib/a.mp4".to_string()), true, false),
        Err(LibraryError::TargetNotDirectory)
    );
    assert_eq!(
        ensure_target_dir_under_root_allow_missing("/lib", "/x/New", Some("/x"), Some("/x".to_string()), false, false),
        Err(LibraryError::TargetDirOutsideLibrary)
    );
    assert_eq!(
        ensure_target_file_under_root_allow_missing("/lib", "/lib/New/a.mp4", Some("/lib"), Some("/lib".to_string())),
        Ok("/lib/New/a.mp4".to_string())
    );
    assert_eq!(
        ensure_target_file_under_root_allow_missing("/lib", "/lib/./a.mp4", Some("/lib"), Some("/lib".to_string())),
        Ok("/lib/a.mp4".to_string())
    );
    assert_eq!(
        ensure_target_file_under_root_allow_missing("/lib", "/lib/New/a.mp4", None, None),
        Err(LibraryError::TargetParentMissing)
    );
}

#[test]
fn resolves_configured_folders() {
    assert_eq!(configured_dir_path("/lib", None, "_downloading"), "/lib/_downloading");
    assert_eq!(configured_dir_path("/lib", Some("  "), "_downloading"), "/lib/_downloading");
    assert_eq!(configured_dir_path("/lib", Some("dl"), "_downloading"), "/lib/dl");
    assert_eq!(configured_dir_path("/lib", Some("/lib/x"), "_downloading"), "/lib/x");
    assert_eq!(ensure_path_under_root("/lib", None), Err(LibraryError::DirMissing));
    assert_eq!(ensure_path_under_root("/lib", Some("/tmp".to_string())), Err(LibraryError::ConfiguredDirOutsideRoot));
    assert_eq!(ensure_path_under_root("/lib", Some("/lib".to_string())), Ok(()));
    assert_eq!(
        resolve_configured_dir("/lib", "/lib/dl", Some("/lib".to_string()), None),
        Ok("/lib/dl".to_string())
    );
    assert_eq!(
        resolve_configured_dir("/lib", "/lib/.", Some("/lib".to_string()), Some("/lib".to_string())),
        Err(LibraryError::ConfiguredDirIsRoot)
    );
    assert_eq!(LibraryError::ConfiguredDirIsRoot.message(), "指定目录不能是库根目录");
}

#[test]
fn shows_paths_without_extended_prefixes() {
    assert_eq!(shell_display_path(r"\\?\D:\Lib\a.mp4"), r"D:\Lib\a.mp4");
    assert_eq!(shell_display_path(r"\\?\UNC\server\share\a"), r"\\server\share\a");
    assert_eq!(shell_display_path(r"D:\Lib"), r"D:\Lib");
}

#[test]
fn matches_actor_folders_by_name() {
    let actors = vec![folder("Yui Hatano"), folder("Sasaki Aki"), folder("yui hatano")];
    assert_eq!(match_actor_folder(&actors, "YUI HATANO").unwrap().path, "/lib/Yui Hatano");
    assert!(match_actor_folder(&actors, "Nobody").is_none());
    assert_eq!(match_actor_folder_by_contains(&actors, " Aki ").unwrap().name, "Sasaki Aki");
    assert_eq!(match_actor_folder_by_contains(&actors, "Sasaki Aki (2)").unwrap().name, "Sasaki Aki");
    assert!(match_actor_folder_by_contains(&actors, "   ").is_none());
}

#[test]
fn counts_each_outcome_once() {
    let mut result = OperationResult::new();
    push_outcome(&mut result, "rename", "a", "b", Ok("重命名成功".to_string()), "t1");
    push_outcome(&mut result, "rename", "c", "d", Err("目标文件已存在".to_string()), "t2");
    push_outcome(&mut result, "rename", "e", "f", Err("该项状态不是 ready，已跳过".to_string()), "t3");
    push_outcome(&mut result, "rename", "g", "h", Err("无法改为目标文件名".to_string()), "t4");
    assert_eq!((result.success, result.skipped, result.failed), (1, 2, 1));
    assert_eq!(result.success + result.skipped + result.failed, result.logs.len());
    assert_eq!(result.logs[0].status, "success");
    assert_eq!(result.logs[1].status, "skipped");
    assert_eq!(result.logs[3].status, "failed");
    assert_eq!(result.logs[3].message, "无法改为目标文件名");
    assert_eq!(result.logs[2].timestamp, "t3");
    assert_eq!(result.logs[1].source_path, "c");
}

#[test]
fn ranks_confidences_and_statuses() {
    assert_eq!(confidence_rank("high"), 3);
    assert_eq!(confidence_rank("medium"), 2);
    assert_eq!(confidence_rank("low"), 1);
    assert_eq!(status_rank("ready"), 3);
    assert_eq!(status_rank("conflict"), 2);
    assert_eq!(status_rank("skipped"), 1);
    assert_eq!(status_rank("other"), 0);
}
