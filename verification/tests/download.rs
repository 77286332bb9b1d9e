use kawa_library::codes::default_processing_options;
use kawa_library::download::{
    build_download_plan_for_file, build_skipped_download_folder_plan, check_download_source,
    check_download_target, check_move_enabled, check_move_target, check_rename,
    check_request_ready, cleanup_decision, download_move_message, download_target_path,
    lower_extension_of, rename_temp_path, review_target, scan_download_folder,
    signed_decimal_chars, sort_download_plans, CleanupDecision, MoveError,
};

#[test]
fn a_finished_video_is_planned_as_ready() {
    let o = default_processing_options();
    let plan = build_download_plan_for_file("/dl", "/lib/_appreciation", "/dl/pack/ssni025.MP4", "folder", false, 2, &o, false).unwrap();
    assert_eq!(plan.id, "/dl/pack/ssni025.MP4");
    assert_eq!(plan.source_name, "pack/ssni025.MP4");
    assert_eq!(plan.folder, "pack");
    assert_eq!(plan.folder_path, "/dl/pack");
    assert_eq!(plan.target_file_name, "SSNI-025.MP4");
    assert_eq!(plan.target_path, "/lib/_appreciation/SSNI-025.MP4");
    assert_eq!(plan.target_relative, "_appreciation\\SSNI-025.MP4");
    assert_eq!(plan.file_count, 2);
    assert_eq!(plan.status, "ready");
    assert_eq!(plan.reason, "可执行");
    assert!(plan.files.is_empty());
    assert_eq!(download_target_path("/lib/_appreciation", "/dl/pack/ssni025.MP4", &o), plan.target_path);
}

#[test]
fn plans_say_why_they_are_skipped() {
    let mut o = default_processing_options();
    let p = |o: &_, unfinished: bool, exists: bool| {
        build_download_plan_for_file("/dl", "/app", "/dl/a.mkv", "file", unfinished, 1, o, exists).unwrap()
    };
    assert_eq!(p(&o, true, false).reason, "检测到未完成下载文件");
    assert_eq!(p(&o, false, true).reason, "欣赏区目标已存在");
    assert_eq!(p(&o, false, true).status, "skipped");
    o.skip_if_exists = false;
    let c = p(&o, false, true);
    assert_eq!((c.status.as_str(), c.reason.as_str()), ("conflict", "欣赏区目标已存在，不会覆盖"));
    o.move_to_appreciation = false;
    assert_eq!(p(&o, false, false).reason, "已关闭“移动到欣赏区”");
    let top = p(&default_processing_options(), false, false);
    assert_eq!(top.folder, "dl");
    assert_eq!(top.source_name, "a.mkv");
    assert!(build_download_plan_for_file("/dl", "/app", "/dl/a.txt", "file", false, 1, &o, false).is_none());
}

#[test]
fn folders_without_videos_are_skipped() {
    let p = build_skipped_download_folder_plan("/dl/pack", true, "folder");
    assert_eq!(p.source_name, "pack");
    assert_eq!(p.target_relative, "跳过");
    assert_eq!(p.status, "skipped");
    assert_eq!(p.reason, "检测到未完成下载文件");
    assert_eq!(build_skipped_download_folder_plan("/dl/pack", false, "folder").reason, "未找到完成的视频文件");
}

#[test]
fn scanning_a_download_folder() {
    let paths = vec!["/d/a.MP4".to_string(), "/d/b.txt".to_string(), "/d/c.mkv.part".to_string(), "/d/e.ts".to_string()];
    let (unfinished, videos) = scan_download_folder(&paths);
    assert!(unfinished);
    assert_eq!(videos, vec!["/d/a.MP4".to_string(), "/d/e.ts".to_string()]);
    let (unfinished, videos) = scan_download_folder(&vec!["/d/x.jpg".to_string()]);
    assert!(!unfinished);
    assert!(videos.is_empty());
    assert_eq!(lower_extension_of("/d/A.MKV"), "mkv");
    assert_eq!(lower_extension_of("/d/noext"), "");
}

#[test]
fn plans_are_shown_ready_first_then_by_name_descending() {
    let o = default_processing_options();
    let plan = |path: &str, exists: bool| build_download_plan_for_file("/dl", "/app", path, "file", false, 1, &o, exists).unwrap();
    let skipped = build_skipped_download_folder_plan("/dl/zz", false, "folder");
    let plans = vec![plan("/dl/a.mp4", false), skipped, plan("/dl/c.mp4", true), plan("/dl/b.mp4", false)];
    let sorted = sort_download_plans(&plans);
    let names: Vec<&str> = sorted.iter().map(|p| p.source_name.as_str()).collect();
    assert_eq!(names, vec!["b.mp4", "a.mp4", "zz", "c.mp4"]);
}

#[test]
fn moves_are_checked_before_they_run() {
    let mut o = default_processing_options();
    assert_eq!(check_request_ready("skipped").unwrap_err(), MoveError::NotReady);
    assert!(check_request_ready("ready").is_ok());
    assert!(check_move_enabled(&o).is_ok());
    assert_eq!(check_download_source("/x/a.mp4", "/dl").unwrap_err(), MoveError::SourceOutsideDownloads);
    assert!(check_download_source("/dl/a.mp4", "/dl").is_ok());
    assert_eq!(check_download_target("/x/A.mp4", "/app", false, &o).unwrap_err(), MoveError::TargetOutsideAppreciation);
    assert_eq!(check_download_target("/app/A.mp4", "/app", true, &o).unwrap_err(), MoveError::TargetExistsSkipped);
    assert!(check_download_target("/app/A.mp4", "/app", false, &o).is_ok());
    o.skip_if_exists = false;
    assert_eq!(check_download_target("/app/A.mp4", "/app", true, &o).unwrap_err(), MoveError::TargetExists);
    o.move_to_appreciation = false;
    assert_eq!(check_move_enabled(&o).unwrap_err().message(), "已关闭“移动到欣赏区”");
    assert_eq!(MoveError::NotReady.message(), "该项状态不是 ready，已跳过");
    assert_eq!(check_move_target(true).unwrap_err(), MoveError::TargetExists);
    assert!(check_move_target(false).is_ok());
}

#[test]
fn move_messages() {
    assert_eq!(download_move_message(""), "已移动到欣赏区");
    assert_eq!(download_move_message("未发现 .xltd，已删除下载文件夹"), "已移动到欣赏区，未发现 .xltd，已删除下载文件夹");
}

#[test]
fn download_folders_are_removed_only_when_finished() {
    let exts = |v: &[&str]| v.iter().map(|s| s.to_string()).collect::<Vec<_>>();
    assert_eq!(cleanup_decision("/dl", "/dl", &exts(&[])), CleanupDecision::Nothing);
    assert_eq!(cleanup_decision("/other/p", "/dl", &exts(&[])), CleanupDecision::Refuse);
    assert_eq!(cleanup_decision("/dl/p", "/dl", &exts(&["mp4", "xltd"])), CleanupDecision::KeepUnfinished);
    assert_eq!(cleanup_decision("/dl/p", "/dl", &exts(&["jpg", "mkv"])), CleanupDecision::KeepVideos);
    let d = cleanup_decision("/dl/p", "/dl", &exts(&["jpg", "txt"]));
    assert_eq!(d, CleanupDecision::Delete);
    assert_eq!(d.message(), "未发现 .xltd，已删除下载文件夹");
    assert_eq!(CleanupDecision::KeepUnfinished.message(), "仍有 .xltd 未完成下载，已保留下载文件夹");
    assert_eq!(CleanupDecision::Nothing.message(), "");
}

#[test]
fn renames_stay_in_their_folder() {
    assert_eq!(check_rename("/a/x.mp4", "/b/x.mp4", false).unwrap_err(), MoveError::RenameAcrossFolders);
    assert_eq!(check_rename("/a/x.mp4", "/a/y.mp4", true).unwrap_err(), MoveError::TargetExists);
    assert!(check_rename("/a/x.mp4", "/a/X.MP4", true).is_ok());
    assert!(check_rename("/a/x.mp4", "/a/y.mp4", false).is_ok());
}

#[test]
fn temporary_rename_paths() {
    assert_eq!(rename_temp_path("/d/a.mp4", 123), "/d/__KAWA_TMP_123_a.mp4");
    assert_eq!(rename_temp_path("/d/noext", -5), "/d/__KAWA_TMP_-5_noext");
    assert_eq!(signed_decimal_chars(i64::MIN).into_iter().collect::<String>(), "-9223372036854775808");
    assert_eq!(signed_decimal_chars(0).into_iter().collect::<String>(), "0");
}

#[test]
fn review_targets() {
    assert_eq!(review_target("/lib/_duplicates_review", "/lib/A/x.mp4"), "/lib/_duplicates_review/x.mp4");
    assert_eq!(review_target("/r", "/"), "/r/unknown");
}
