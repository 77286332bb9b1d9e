use kawa_library::archive::{
    actor_candidates, avatar_search_url, avatar_url_from_actor_page, build_archive_move_preview,
    check_archive_delete, check_archive_move, failed_lookup, fc2_lookup, find_actor_folder,
    is_blocked_lookup, is_fc2_lookup, resolve_archive_move, lookup_javbus_metadata, metadata_site, profile_from_lookup,
    ArchiveFacts, ArchiveMoveError, ArchivePaths, AvatarError, LookupAction, LookupError, LookupEvent, LookupPhase,
    AGE_WALL_MESSAGE,
};
use kawa_library::library::{DirectFolder, LibraryError};

fn folder(name: &str, path: &str) -> DirectFolder {
    DirectFolder { name: name.to_string(), path: path.to_string(), modified_unix: 0 }
}

fn fetched(action: &LookupAction) -> String {
    match action {
        LookupAction::Fetch(url) => url.clone(),
        _ => panic!("expected a fetch"),
    }
}

#[test]
fn a_lookup_runs_through_search_detail_avatar_and_clock() {
    let actors = vec![folder("佐々木さき", "/lib/佐々木さき"), folder("Other", "/lib/Other")];
    let (mut lookup, first) = lookup_javbus_metadata("www.javbus.com", "SIRO-5664", actors);
    assert_eq!(fetched(&first), "https://www.javbus.com/search/SIRO-5664");
    assert_eq!(lookup.phase, LookupPhase::Search);

    let search = r#"<div class="star-name">佐々木さき</div><a href="/SIRO-5664">SIRO-5664</a>"#;
    let next = lookup.step(LookupEvent::Page(Some(search.to_string())));
    assert_eq!(fetched(&next), "https://www.javbus.com/SIRO-5664");
    assert_eq!(lookup.phase, LookupPhase::Detail);

    let detail = r#"<a href="https://www.javbus.com/star/ab1"><img src="/pics/star/ab1.jpg" title="x"></a>
        <div class="star-name">佐々木さき</div>"#;
    let next = lookup.step(LookupEvent::Page(Some(detail.to_string())));
    match &next {
        LookupAction::DownloadAvatar { url, actor_path, referer } => {
            assert_eq!(url, "https://www.javbus.com/pics/star/ab1.jpg");
            assert_eq!(actor_path, "/lib/佐々木さき");
            assert_eq!(referer, "https://www.javbus.com/SIRO-5664");
        }
        _ => panic!("expected an avatar download"),
    }
    let next = lookup.step(LookupEvent::AvatarSaved(Some("/data/avatars/a.jpg".to_string())));
    assert!(matches!(next, LookupAction::ReadClock));
    let done = lookup.step(LookupEvent::Clock("2024-01-02 03:04".to_string()));
    assert_eq!(lookup.phase, LookupPhase::Finished);
    match done {
        LookupAction::Finish(Ok(result)) => {
            assert_eq!(result.code, "SIRO-5664");
            assert_eq!(result.status, "searched");
            assert_eq!(result.actor_name.as_deref(), Some("佐々木さき"));
            assert_eq!(result.actor_path.as_deref(), Some("/lib/佐々木さき"));
            assert_eq!(result.avatar_path.as_deref(), Some("/data/avatars/a.jpg"));
            assert_eq!(result.source_url.as_deref(), Some("https://www.javbus.com/SIRO-5664"));
            assert_eq!(result.message, "已搜索：佐々木さき");
            assert_eq!(result.searched_at, "2024-01-02 03:04");
        }
        _ => panic!("expected a finished lookup"),
    }
}

#[test]
fn a_lookup_stops_when_the_search_page_fails() {
    let (mut lookup, _) = lookup_javbus_metadata("www.javbus.com", "ABC-123", vec![]);
    match lookup.step(LookupEvent::Page(None)) {
        LookupAction::Finish(Err(e)) => assert_eq!(e, LookupError::SearchRequestFailed),
        _ => panic!("expected a failure"),
    }
}

#[test]
fn a_lookup_stops_at_the_age_wall() {
    let (mut lookup, _) = lookup_javbus_metadata("www.javbus.com", "ABC-123", vec![]);
    let wall = "<div id=\"driver-verify\">Age Verification JavBus</div>";
    match lookup.step(LookupEvent::Page(Some(wall.to_string()))) {
        LookupAction::Finish(Err(e)) => {
            assert_eq!(e, LookupError::AgeVerification);
            assert_eq!(e.message(), AGE_WALL_MESSAGE);
        }
        _ => panic!("expected a failure"),
    }
}

#[test]
fn a_lookup_tries_the_second_search_page_when_no_actor_is_named() {
    let actors = vec![folder("Alice", "/lib/Alice")];
    let (mut lookup, _) = lookup_javbus_metadata("https://www.javbus.com/", "ABC-123", actors);
    let next = lookup.step(LookupEvent::Page(Some("<p>nothing here</p>".to_string())));
    assert_eq!(fetched(&next), "https://www.javbus.com/search/ABC-123&type=1");
    assert_eq!(lookup.phase, LookupPhase::Fallback);
    let next = lookup.step(LookupEvent::Page(Some(r#"<div class="star-name">Alice</div>"#.to_string())));
    assert!(matches!(next, LookupAction::ReadClock));
    match lookup.step(LookupEvent::Clock("now".to_string())) {
        LookupAction::Finish(Ok(result)) => {
            assert_eq!(result.actor_path.as_deref(), Some("/lib/Alice"));
            assert_eq!(result.avatar_path, None);
            assert_eq!(result.source_url.as_deref(), Some("https://www.javbus.com/search/ABC-123&type=1"));
            assert_eq!(result.message, "已搜索：Alice");
        }
        _ => panic!("expected a finished lookup"),
    }
}

#[test]
fn a_lookup_without_names_or_folders_says_so() {
    let (mut lookup, _) = lookup_javbus_metadata("www.javbus.com", "ABC-123", vec![]);
    lookup.step(LookupEvent::Page(Some("<p>nothing</p>".to_string())));
    let next = lookup.step(LookupEvent::Page(None));
    assert!(matches!(next, LookupAction::ReadClock));
    match lookup.step(LookupEvent::Clock("now".to_string())) {
        LookupAction::Finish(Ok(result)) => {
            assert_eq!(result.actor_name, None);
            assert_eq!(result.actor_path, None);
            assert_eq!(result.source_url.as_deref(), Some("https://www.javbus.com/search/ABC-123"));
            assert_eq!(result.message, "已搜索，但没有解析到演员或本地没有对应目录");
        }
        _ => panic!("expected a finished lookup"),
    }
}

#[test]
fn a_lookup_stops_when_the_detail_page_fails() {
    let (mut lookup, _) = lookup_javbus_metadata("www.javbus.com", "SIRO-5664", vec![]);
    let search = r#"<div class="star-name">Bob</div><a href="/SIRO-5664">x</a>"#;
    lookup.step(LookupEvent::Page(Some(search.to_string())));
    match lookup.step(LookupEvent::Page(None)) {
        LookupAction::Finish(Err(e)) => {
            assert_eq!(e, LookupError::DetailRequestFailed);
            assert_eq!(e.message(), "详情页请求失败");
        }
        _ => panic!("expected a failure"),
    }
}

#[test]
fn exact_names_win_over_overlapping_ones() {
    let actors = vec![folder("Alice Smith", "/lib/Alice Smith"), folder("alice", "/lib/alice")];
    let names = vec!["Alice".to_string()];
    let found = find_actor_folder(&actors, &names).unwrap();
    assert_eq!(found.path, "/lib/alice");
    let only_overlap = vec![folder("Alice Smith", "/lib/Alice Smith")];
    assert_eq!(find_actor_folder(&only_overlap, &names).unwrap().path, "/lib/Alice Smith");
    assert!(find_actor_folder(&only_overlap, &vec!["Carol".to_string()]).is_none());
}

#[test]
fn fc2_codes_are_filed_under_the_fc2_folder() {
    assert!(is_fc2_lookup("FC2PPV-123456"));
    assert!(!is_fc2_lookup("fc2ppv-123456"));
    let with_folder = fc2_lookup("FC2PPV-1", &vec![folder("FC2", "/lib/FC2")], "/lib", "t");
    assert_eq!(with_folder.actor_path.as_deref(), Some("/lib/FC2"));
    assert_eq!(with_folder.actor_name.as_deref(), Some("fc2"));
    assert_eq!(with_folder.message, "FC2 番号自动归档到 fc2 文件夹");
    let without = fc2_lookup("FC2PPV-1", &vec![], "/lib", "t");
    assert_eq!(without.actor_path.as_deref(), Some("/lib/fc2"));
    assert_eq!(without.source_url, None);
}

#[test]
fn failed_lookups_keep_the_search_address() {
    let f = failed_lookup("www.javbus.com", "ABC-1", LookupError::SearchRequestFailed, "t");
    assert_eq!(f.message, "联网搜索失败：搜索页请求失败");
    assert_eq!(f.source_url.as_deref(), Some("https://www.javbus.com/search/ABC-1"));
    assert!(is_blocked_lookup(&failed_lookup("x", "y", LookupError::AgeVerification, "t").message));
    assert!(!is_blocked_lookup(&f.message));
    assert!(profile_from_lookup(&f).is_none());
}

#[test]
fn profiles_come_from_filed_lookups() {
    let l = fc2_lookup("FC2PPV-1", &vec![], "/lib", "2024");
    let p = profile_from_lookup(&l).unwrap();
    assert_eq!(p.actor_name, "fc2");
    assert_eq!(p.actor_path, "/lib/fc2");
    assert_eq!(p.updated_at, "2024");
}

#[test]
fn the_default_site_stands_in_for_a_blank_one() {
    assert_eq!(metadata_site(None), "www.javbus.com");
    assert_eq!(metadata_site(Some("  ")), "www.javbus.com");
    assert_eq!(metadata_site(Some("javbus.org")), "javbus.org");
}

#[test]
fn reserved_folders_are_no_actor_candidates() {
    let folders = vec![folder("_appreciation", "/l/_appreciation"), folder("Bob", "/l/Bob"), folder("$RECYCLE.BIN", "/l/$RECYCLE.BIN")];
    let c = actor_candidates(&folders);
    assert_eq!(c.len(), 1);
    assert_eq!(c[0].name, "Bob");
}

#[test]
fn avatars_are_searched_for_actor_folders_only() {
    assert_eq!(avatar_search_url("/lib", "/lib/_downloading", "www.javbus.com").unwrap_err(), AvatarError::ReservedFolder);
    assert_eq!(avatar_search_url("/lib", "/lib", "www.javbus.com").unwrap_err(), AvatarError::ReservedFolder);
    let (name, url) = avatar_search_url("/lib", "/lib/Bob", "www.javbus.com").unwrap();
    assert_eq!(name, "Bob");
    assert_eq!(url, "https://www.javbus.com/searchstar/Bob");
    let page = r#"<img src="/pics/actress/b_a.jpg" title="Bob">"#;
    assert_eq!(avatar_url_from_actor_page(page, &url).unwrap(), "https://www.javbus.com/pics/actress/b_a.jpg");
    assert_eq!(avatar_url_from_actor_page("<p>none</p>", &url).unwrap_err(), AvatarError::NoImage);
    assert_eq!(avatar_url_from_actor_page("driver-verify", &url).unwrap_err(), AvatarError::AgeVerification);
    assert_eq!(AvatarError::NoImage.message(), "没有解析到头像图片");
}

fn facts(source: Option<&str>, is_file: bool, actor_existing: &str, actor_exists: bool) -> ArchiveFacts {
    ArchiveFacts {
        appreciation_exists: true,
        appreciation_canonical: Some("/lib/_appreciation".to_string()),
        source_canonical: source.map(|s| s.to_string()),
        source_is_file: is_file,
        actor_existing: Some(actor_existing.to_string()),
        actor_canonical_existing: Some(actor_existing.to_string()),
        actor_exists,
        actor_is_dir: actor_exists,
    }
}

fn paths_of(source: &str, actor: &str) -> ArchivePaths {
    let f = facts(Some(source), true, actor, true);
    resolve_archive_move("/lib", "/lib/_appreciation", actor, f).unwrap()
}

#[test]
fn archive_moves_are_previewed_and_checked() {
    let paths = paths_of("/lib/_appreciation/A-1.mp4", "/lib/Bob");
    assert_eq!(paths.source, "/lib/_appreciation/A-1.mp4");
    assert_eq!(paths.target, "/lib/Bob/A-1.mp4");
    let ready = build_archive_move_preview(&paths, false);
    assert_eq!(ready.target_path, "/lib/Bob/A-1.mp4");
    assert_eq!(ready.actor_name, "Bob");
    assert_eq!(ready.status, "ready");
    assert_eq!(ready.message, "确认后会从欣赏区移动到演员目录");
    assert!(check_archive_move(&ready).is_ok());
    let conflict = build_archive_move_preview(&paths, true);
    assert_eq!(conflict.status, "conflict");
    assert_eq!(conflict.message, "演员目录已有同名文件：A-1.mp4，不会覆盖");
    assert_eq!(check_archive_move(&conflict).unwrap_err(), conflict.message);
    let reserved = resolve_archive_move("/lib", "/lib/_appreciation", "/lib/_review", facts(Some("/lib/_appreciation/A-1.mp4"), true, "/lib/_review", true));
    assert_eq!(reserved.err().unwrap(), ArchiveMoveError::ReservedActorDir);
    assert_eq!(ArchiveMoveError::ReservedActorDir.message(), "目标演员目录不能是系统目录");
}

#[test]
fn archive_moves_check_the_resolved_paths() {
    // A source written through `..` resolves outside the appreciation folder.
    let escaped = resolve_archive_move(
        "/lib",
        "/lib/_appreciation",
        "/lib/Bob",
        facts(Some("/lib/Ann/x.mp4"), true, "/lib/Bob", true),
    );
    assert_eq!(escaped.err().unwrap(), ArchiveMoveError::SourceOutsideAppreciation);
    let missing = resolve_archive_move("/lib", "/lib/_appreciation", "/lib/Bob", facts(None, false, "/lib/Bob", true));
    let e = missing.err().unwrap();
    assert_eq!(e, ArchiveMoveError::Path(LibraryError::SourceMissing));
    assert_eq!(e.message(), "源文件不存在");
    let folder = resolve_archive_move("/lib", "/lib/_appreciation", "/lib/Bob", facts(Some("/lib/_appreciation/d"), false, "/lib/Bob", true));
    assert_eq!(folder.err().unwrap(), ArchiveMoveError::Path(LibraryError::SourceNotFile));
    let outside_root = resolve_archive_move("/lib", "/other", "/lib/Bob", {
        let mut f = facts(Some("/other/x.mp4"), true, "/lib/Bob", true);
        f.appreciation_canonical = Some("/other".to_string());
        f
    });
    assert_eq!(outside_root.err().unwrap(), ArchiveMoveError::Path(LibraryError::SourceOutsideLibrary));
    let new_actor = resolve_archive_move("/lib", "/lib/_appreciation", "/lib/New", facts(Some("/lib/_appreciation/A-1.mp4"), true, "/lib", false)).unwrap();
    assert_eq!(new_actor.actor_dir, "/lib/New");
    assert_eq!(new_actor.target, "/lib/New/A-1.mp4");
    let relative = resolve_archive_move("/lib", "/lib/_appreciation", "/lib/../x", facts(Some("/lib/_appreciation/A-1.mp4"), true, "/lib", false));
    assert_eq!(relative.err().unwrap(), ArchiveMoveError::Path(LibraryError::TargetDirRelative));
    let mut unresolved = facts(Some("/lib/_appreciation/A-1.mp4"), true, "/lib/Bob", true);
    unresolved.appreciation_canonical = None;
    let e = resolve_archive_move("/lib", "/lib/_appreciation", "/lib/Bob", unresolved).err().unwrap();
    assert_eq!(e, ArchiveMoveError::AppreciationUnresolved);
    assert_eq!(e.message(), "无法解析欣赏区目录");
    let not_dir = resolve_archive_move("/lib", "/lib/_appreciation", "/lib/Bob", {
        let mut f = facts(Some("/lib/_appreciation/A-1.mp4"), true, "/lib/Bob", true);
        f.actor_is_dir = false;
        f
    });
    assert_eq!(not_dir.err().unwrap(), ArchiveMoveError::Path(LibraryError::TargetNotDirectory));
}

#[test]
fn deletes_stay_inside_the_appreciation_folder() {
    assert!(check_archive_delete("/lib/_appreciation/a.mp4", "/lib/_appreciation").is_ok());
    assert_eq!(check_archive_delete("/lib/Bob/a.mp4", "/lib/_appreciation").unwrap_err(), ArchiveMoveError::DeleteOutsideAppreciation);
}

#[test]
fn a_lookup_accepts_only_the_answer_it_asked_for() {
    let (lookup, _) = lookup_javbus_metadata("www.javbus.com", "ABC-123", vec![]);
    assert!(lookup.accepts(&LookupEvent::Page(None)));
    assert!(!lookup.accepts(&LookupEvent::Clock("2024-01-01 00:00:00".to_string())));
    assert!(!lookup.accepts(&LookupEvent::AvatarSaved(None)));
}
