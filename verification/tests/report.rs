use kawa_library::codes::build_code_regexes;
use kawa_library::library::{DirectFolder, LibraryFile};
use kawa_library::report::{
    actor_folder_list, actor_refresh_decision, actor_roles, appreciation_videos,
    build_actor_summaries, build_move_suggestions, build_rename_previews, build_stale_folders,
    code_duplicate_groups, count_videos, cover_path_for_video, days_since, largest_direct_files,
    largest_folders, library_file_from_path, name_duplicate_groups, numeric_duplicate_groups,
    parse_report_scanned_at, rename_candidate, root_files, should_refresh_appreciation,
    snapshot_actor_folders, sort_by_size_desc, summarize_actor_folder,
};
use sha2::{Digest, Sha256};

fn file(path: &str, parent: &str, size: i64, mtime: i64, depth: usize, code: Option<&str>) -> LibraryFile {
    let name = path.rsplit('/').next().unwrap().to_string();
    let extension = name.rsplit_once('.').map(|(_, e)| e.to_ascii_lowercase()).unwrap_or_default();
    LibraryFile {
        id: 0,
        name,
        path: path.to_string(),
        parent: parent.to_string(),
        extension,
        size_bytes: size,
        modified: format!("t{}", mtime),
        modified_unix: mtime,
        depth,
        media_code: code.map(|c| c.to_string()),
        cover_path: None,
        is_root_file: depth == 0,
    }
}

fn folder(name: &str, modified: i64) -> DirectFolder {
    DirectFolder { name: name.to_string(), path: format!("/lib/{}", name), modified_unix: modified }
}

#[test]
fn cover_paths_hash_the_lower_case_path_size_time_and_percent() {
    let mut h = Sha256::new();
    h.update(b"/v/a.mp4|100|-5|25.00");
    let expected = format!("/covers/{:x}.jpg", h.finalize());
    assert_eq!(cover_path_for_video("/V/A.mp4", 100, -5, "25.00", "/covers"), expected);
    assert_ne!(cover_path_for_video("/v/a.mp4", 101, -5, "25.00", "/covers"), expected);
}

#[test]
fn file_records_from_paths() {
    let regexes = build_code_regexes().unwrap();
    let f = library_file_from_path("/lib", "/lib/Alice/ssni025.MP4", 7, 100, 5, "m", "/c/x.jpg", &regexes);
    assert_eq!(f.name, "ssni025.MP4");
    assert_eq!(f.parent, "Alice");
    assert_eq!(f.extension, "mp4");
    assert_eq!(f.depth, 1);
    assert_eq!(f.media_code.as_deref(), Some("SSNI-025"));
    assert_eq!(f.cover_path.as_deref(), Some("/c/x.jpg"));
    assert!(!f.is_root_file);
    let r = library_file_from_path("/lib", "/lib/notes.txt", 8, u64::MAX, 5, "m", "/c/y.jpg", &regexes);
    assert_eq!(r.parent, "lib");
    assert_eq!(r.depth, 0);
    assert_eq!(r.size_bytes, i64::MAX);
    assert_eq!(r.media_code, None);
    assert_eq!(r.cover_path, None);
    assert!(r.is_root_file);
    assert_eq!(library_file_from_path("/lib", "/lib/A/B/c.mkv", 9, 1, 1, "m", "c", &regexes).depth, 2);
}

#[test]
fn largest_files_are_ranked() {
    let files = vec![
        file("/lib/A/a.mp4", "A", 10, 0, 1, None),
        file("/lib/A/b.mp4", "A", 30, 0, 1, None),
        file("/lib/A/x/c.mp4", "x", 99, 0, 2, None),
        file("/lib/B/d.jpg", "B", 50, 0, 1, None),
        file("/lib/B/e.mkv", "B", 30, 0, 1, None),
    ];
    let top = largest_direct_files(&files, 2);
    assert_eq!(top.len(), 2);
    assert_eq!((top[0].rank, top[0].file.name.as_str()), (1, "b.mp4"));
    assert_eq!((top[1].rank, top[1].file.name.as_str()), (2, "e.mkv"));
    let sorted = sort_by_size_desc(&files);
    assert_eq!(sorted[0].size_bytes, 99);
    assert_eq!(sorted[4].size_bytes, 10);
    assert_eq!(count_videos(&files), 4);
}

#[test]
fn files_at_the_root_get_suggestions() {
    let all = vec![
        file("/lib/ABC-1.mp4", "lib", 1, 0, 0, Some("ABC-1")),
        file("/lib/XYZ-2.mp4", "lib", 1, 0, 0, Some("XYZ-2")),
        file("/lib/readme.mp4", "lib", 1, 0, 0, None),
        file("/lib/Bob/ABC-1.mkv", "Bob", 1, 0, 1, Some("ABC-1")),
        file("/lib/Ann/ABC-1.avi", "Ann", 1, 0, 1, Some("ABC-1")),
        file("/lib/Ann/ABC-1.ts", "Ann", 1, 0, 1, Some("ABC-1")),
    ];
    let roots = root_files(&all);
    assert_eq!(roots.len(), 3);
    let s = build_move_suggestions(&roots, &all);
    let summary: Vec<(&str, &str, &str)> = s.iter().map(|m| (m.file.name.as_str(), m.target_folder.as_str(), m.confidence.as_str())).collect();
    assert_eq!(summary, vec![("ABC-1.mp4", "Ann", "high"), ("XYZ-2.mp4", "_review", "medium"), ("readme.mp4", "_review", "low")]);
    assert_eq!(s[0].reason, "库内已存在同番号 ABC-1");
    assert_eq!(s[1].reason, "识别到番号 XYZ-2，但没有匹配到已有目录");
    assert_eq!(s[2].reason, "没有识别到稳定番号，建议人工确认");
}

#[test]
fn rename_candidates_and_previews() {
    let f = file("/lib/A/hhd800.com@ssni025.mp4", "A", 1, 0, 1, None);
    let (name, rules, target) = rename_candidate(&f).unwrap();
    assert_eq!(name, "SSNI-025.mp4");
    assert_eq!(rules, vec!["去 @ 前缀".to_string(), "补横杠".to_string(), "名称大写".to_string()]);
    assert_eq!(target, "/lib/A/SSNI-025.mp4");
    assert!(rename_candidate(&file("/lib/A/SSNI-025.mp4", "A", 1, 0, 1, None)).is_none());
    let files = vec![
        f,
        file("/lib/B/abc123.mkv", "B", 1, 0, 1, None),
        file("/lib/B/deep/abc123.mkv", "deep", 1, 0, 2, None),
        file("/lib/SSNI-025.mp4", "lib", 1, 0, 0, None),
    ];
    let previews = build_rename_previews(&files, &vec![false, true, false, false]);
    let shown: Vec<(&str, &str)> = previews.iter().map(|p| (p.current_name.as_str(), p.status.as_str())).collect();
    assert_eq!(shown, vec![("hhd800.com@ssni025.mp4", "ready"), ("abc123.mkv", "conflict")]);
    assert_eq!(previews[1].new_name, "ABC-123.mkv");
    assert_eq!(previews[1].reason, "目标文件已存在，默认跳过");
    assert_eq!(previews[0].reason, "可安全重命名");
    assert_eq!(previews[0].directory, "/lib/A");
}

#[test]
fn stale_folders_are_oldest_first() {
    let day = 86400;
    let now = 100 * day;
    let files = vec![
        file("/lib/Old/a.mp4", "Old", 1, 10 * day, 1, None),
        file("/lib/Old/b.mp4", "Old", 1, 20 * day, 1, None),
        file("/lib/New/c.mp4", "New", 1, 95 * day, 1, None),
    ];
    let folders = vec![folder("New", 0), folder("Empty", 0), folder("Old", 0)];
    let stale = build_stale_folders(&files, &folders, now);
    let shown: Vec<(&str, i64, bool)> = stale.iter().map(|s| (s.folder.as_str(), s.days_since, s.is_stale)).collect();
    assert_eq!(shown, vec![("Empty", 9999, true), ("Old", 80, true), ("New", 5, false)]);
    assert_eq!(stale[0].latest_file, "(空文件夹)");
    assert_eq!(stale[0].latest_modified, "——");
    assert_eq!(stale[1].latest_file, "b.mp4");
    assert_eq!(stale[1].file_count, 2);
    assert_eq!(stale[1].suggestion, "归档/复查");
    assert_eq!(stale[2].suggestion, "观察");
    assert_eq!(days_since(10, 20), 0);
    assert_eq!(days_since(2 * day + 5, 0), 2);
}

#[test]
fn actor_roles_follow_the_thresholds() {
    let gib: i128 = 1 << 30;
    assert_eq!(actor_roles(1, 0, 0, 100 * 86400), vec!["普通演员".to_string()]);
    assert_eq!(
        actor_roles(50, 300 * gib, 0, 14 * 86400),
        vec!["高频收藏".to_string(), "最近新增".to_string(), "大目录".to_string()]
    );
    assert_eq!(actor_roles(1, 300 * gib - 1, 0, 30 * 86400), vec!["大目录".to_string()]);
    assert_eq!(actor_roles(1, 299 * gib, 0, 30 * 86400), vec!["普通演员".to_string()]);
}

#[test]
fn actor_folders_are_summarised() {
    let files = vec![
        file("/lib/Ann/a.mp4", "Ann", 10, 5, 1, Some("A-1")),
        file("/lib/Ann/cover.jpg", "Ann", 1, 9, 1, None),
        file("/lib/Ann/sub/b.mkv", "sub", 20, 7, 2, None),
    ];
    let s = summarize_actor_folder("Ann", "/lib/Ann", &files, Some(1), 10).unwrap();
    assert_eq!(s.file_count, 3);
    assert_eq!(s.total_bytes, 31);
    assert_eq!(s.modified_unix, 9);
    assert_eq!(s.videos.len(), 1);
    assert_eq!(s.videos[0].name, "b.mkv");
    assert_eq!(s.roles, vec!["最近新增".to_string()]);
    assert!(summarize_actor_folder("Ann", "/lib/Ann", &vec![files[1].clone_record()], None, 10).is_none());
    assert!(summarize_actor_folder("Ann", "/lib/Ann", &vec![], None, 10).is_none());
}

trait CloneRecord {
    fn clone_record(&self) -> LibraryFile;
}

impl CloneRecord for LibraryFile {
    fn clone_record(&self) -> LibraryFile {
        LibraryFile {
            id: self.id,
            name: self.name.clone(),
            path: self.path.clone(),
            parent: self.parent.clone(),
            extension: self.extension.clone(),
            size_bytes: self.size_bytes,
            modified: self.modified.clone(),
            modified_unix: self.modified_unix,
            depth: self.depth,
            media_code: self.media_code.clone(),
            cover_path: self.cover_path.clone(),
            is_root_file: self.is_root_file,
        }
    }
}

#[test]
fn the_actor_report_lists_latest_folders_first() {
    let files = vec![
        file("/lib/Ann/a.mp4", "Ann", 1, 5, 1, None),
        file("/lib/Bob/b.mp4", "Bob", 1, 8, 1, None),
        file("/lib/Cat/c.txt", "Cat", 1, 9, 1, None),
        file("/lib/Dan/d.mp4", "Dan", 1, 9, 1, None),
    ];
    let folders = vec![folder("Ann", 0), folder("Bob", 0), folder("_x", 0), folder("Cat", 0), folder("Dan", 0)];
    let report = build_actor_summaries("/lib", &files, &folders, &vec!["Dan".to_string()], 100);
    let names: Vec<&str> = report.iter().map(|s| s.name.as_str()).collect();
    assert_eq!(names, vec!["Bob", "Ann"]);
    let list = actor_folder_list(&folders, &vec!["Dan".to_string()]);
    assert_eq!(list.iter().map(|f| f.name.as_str()).collect::<Vec<_>>(), vec!["Ann", "Bob", "Cat"]);
    let snaps = snapshot_actor_folders(&vec![folder("Zed", 3), folder("Amy", 4)], &vec![]);
    assert_eq!(snaps.iter().map(|s| (s.path.as_str(), s.modified_unix)).collect::<Vec<_>>(), vec![("/lib/Amy", 4), ("/lib/Zed", 3)]);
}

#[test]
fn refresh_decisions() {
    assert_eq!(actor_refresh_decision(5, Some(5), Some(5), Some(10)), (false, false));
    assert_eq!(actor_refresh_decision(5, Some(5), None, Some(10)), (false, true));
    assert_eq!(actor_refresh_decision(6, Some(5), Some(5), Some(10)), (false, true));
    assert_eq!(actor_refresh_decision(11, Some(5), Some(5), Some(10)), (true, true));
    assert_eq!(actor_refresh_decision(5, None, Some(5), Some(10)), (false, false));
    assert_eq!(actor_refresh_decision(5, None, None, None), (true, true));
    assert!(should_refresh_appreciation("", "/a", 1, 1));
    assert!(!should_refresh_appreciation("/A", "/a", 1, 1));
    assert!(should_refresh_appreciation("/a", "/a", 1, 2));
}

#[test]
fn appreciation_videos_are_latest_first() {
    let files = vec![
        file("/lib/_appreciation/a.mp4", "_appreciation", 1, 1, 1, None),
        file("/lib/_appreciation/b.mp4", "_appreciation", 1, 3, 1, None),
        file("/lib/_appreciation/c.jpg", "_appreciation", 1, 9, 1, None),
        file("/lib/Bob/d.mp4", "Bob", 1, 9, 1, None),
    ];
    let v = appreciation_videos(&files, "/lib/_appreciation");
    assert_eq!(v.iter().map(|f| f.name.as_str()).collect::<Vec<_>>(), vec!["b.mp4", "a.mp4"]);
}

#[test]
fn duplicate_groups_by_name_and_code() {
    let files = vec![
        file("/lib/A/x.mp4", "A", 10, 0, 1, Some("X-1")),
        file("/lib/B/X.MP4", "B", 30, 0, 1, Some("X-1")),
        file("/lib/B/y.mp4", "B", 5, 0, 1, Some("Y-1")),
        file("/lib/C/z.txt", "C", 5, 0, 1, Some("Y-1")),
    ];
    let by_name = name_duplicate_groups(&files);
    assert_eq!(by_name.len(), 1);
    assert_eq!(by_name[0].key, "X.MP4");
    assert_eq!(by_name[0].count, 2);
    assert_eq!(by_name[0].total_bytes, 40);
    assert_eq!(by_name[0].files[0].size_bytes, 30);
    let by_code = code_duplicate_groups(&files);
    assert_eq!(by_code.iter().map(|g| (g.key.as_str(), g.count)).collect::<Vec<_>>(), vec![("X-1", 2), ("Y-1", 2)]);
}

#[test]
fn numeric_groups_within_a_folder() {
    let files = vec![
        file("/lib/A/clip 1234 a.mp4", "A", 1, 0, 1, None),
        file("/lib/A/other-1234.mkv", "A", 1, 0, 1, None),
        file("/lib/A/12.mp4", "A", 1, 0, 1, None),
        file("/lib/B/1234.mp4", "B", 1, 0, 1, None),
    ];
    let groups = numeric_duplicate_groups(&files);
    assert_eq!(groups.len(), 1);
    assert_eq!((groups[0].folder.as_str(), groups[0].number.as_str(), groups[0].count), ("A", "1234", 2));
    assert_eq!(groups[0].files[0].name, "clip 1234 a.mp4");
}

#[test]
fn largest_folders_by_size() {
    let gib: i64 = 1 << 30;
    let files = vec![
        file("/lib/A/a.mp4", "A", gib, 1, 1, None),
        file("/lib/B/x/b.mp4", "x", 3 * gib, 4, 2, None),
        file("/lib/B/c.mp4", "B", 1, 2, 1, None),
        file("/lib/top.mp4", "lib", 9 * gib, 1, 0, None),
    ];
    let folders = largest_folders("/lib", &files);
    let shown: Vec<(&str, usize, i128, i64)> = folders.iter().map(|f| (f.name.as_str(), f.file_count, f.size_bytes, f.modified_unix)).collect();
    assert_eq!(shown, vec![("B", 2, 3 * gib as i128 + 1, 4), ("A", 1, gib as i128, 1)]);
    assert_eq!(folders[0].path, "/lib/B");
}

#[test]
fn report_times_parse_as_utc() {
    assert_eq!(parse_report_scanned_at("2024-01-02 03:04:05 UTC"), Some(1704164645));
    assert_eq!(parse_report_scanned_at("2024-01-02 03:04:05"), None);
    assert_eq!(parse_report_scanned_at("yesterday"), None);
}

use kawa_library::report::{refresh_stats, scan_stats};

#[test]
fn scan_summaries_count_files_roots_videos_and_bytes() {
    let files = vec![
        file("/lib/a.mp4", "lib", 10, 1, 0, None),
        file("/lib/查重.txt", "lib", 1, 1, 0, None),
        file("/lib/Ann/b.mkv", "Ann", 20, 1, 1, None),
        file("/lib/Ann/c.jpg", "Ann", 5, 1, 1, None),
    ];
    let s = scan_stats("/lib", &files, 3, "2024-01-02 03:04:05 UTC");
    assert_eq!(s.root_path, "/lib");
    assert_eq!(s.file_count, 4);
    assert_eq!(s.folder_count, 3);
    assert_eq!(s.root_file_count, 1);
    assert_eq!(s.video_count, 2);
    assert_eq!(s.total_bytes, 36);
    assert_eq!(s.scanned_at, "2024-01-02 03:04:05 UTC");
    let empty = scan_stats("/lib", &vec![], 0, "t");
    assert_eq!((empty.file_count, empty.root_file_count, empty.video_count, empty.total_bytes), (0, 0, 0, 0));
}

#[test]
fn refreshed_reports_are_restamped_only_when_changed() {
    let files = vec![
        file("/lib/Ann/a.mp4", "Ann", 10, 5, 1, None),
        file("/lib/Ann/b.jpg", "Ann", 1, 9, 1, None),
    ];
    let actors = vec![summarize_actor_folder("Ann", "/lib/Ann", &files, None, 10).unwrap()];
    let kept = refresh_stats(&actors, 3, 7, false, "old", "new");
    assert_eq!((kept.file_count, kept.video_count, kept.folder_count), (5, 4, 7));
    assert_eq!(kept.scanned_at, "old");
    let stamped = refresh_stats(&actors, 3, 7, true, "old", "new");
    assert_eq!(stamped.scanned_at, "new");
    assert_eq!(refresh_stats(&vec![], 0, 0, false, "old", "new").file_count, 0);
}
