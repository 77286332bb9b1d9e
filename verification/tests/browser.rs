use kawa_library::browser::{
    chromium_profiles, cookie_row_value, imported_session_status, manual_session,
    manual_session_status, session_probe_url, start_session_import, ImportAction, ImportEvent,
    ImportPhase,
};
use kawa_library::library::window_size;
use kawa_library::session::{BrowserKind, CookieDecryption, SessionError};

fn entries(v: &[(&str, bool)]) -> Vec<(String, bool)> {
    v.iter().map(|(n, b)| (n.to_string(), *b)).collect()
}

#[test]
fn profiles_default_first_then_by_name() {
    let found = chromium_profiles(&entries(&[
        ("Profile 2", true),
        ("System Profile", true),
        ("Default", true),
        ("Profile 1", true),
        ("Profile 3", false),
        ("Guest Profile", true),
    ]));
    assert_eq!(found, vec!["Default".to_string(), "Profile 1".to_string(), "Profile 2".to_string()]);
    assert!(chromium_profiles(&vec![]).is_empty());
}

fn read(browser: BrowserKind, profile: &str, action: &ImportAction) {
    match action {
        ImportAction::ReadCookies { browser: b, profile: p } => {
            assert_eq!(*b, browser);
            assert_eq!(p, profile);
        }
        _ => panic!("expected a cookie read"),
    }
}

#[test]
fn an_import_tries_each_profile_until_the_probe_passes() {
    let (mut import, first) = start_session_import("www.javbus.com", None);
    assert!(matches!(first, ImportAction::ListProfiles(BrowserKind::Edge)));
    let next = import.step(ImportEvent::Profiles(Ok(vec![])));
    assert!(matches!(next, ImportAction::ListProfiles(BrowserKind::Chrome)));
    let next = import.step(ImportEvent::Profiles(Ok(vec!["Default".to_string(), "Profile 1".to_string()])));
    read(BrowserKind::Chrome, "Default", &next);
    let next = import.step(ImportEvent::Cookies { header: Ok(None), now: "t1".to_string() });
    read(BrowserKind::Chrome, "Profile 1", &next);
    let next = import.step(ImportEvent::Cookies { header: Ok(Some("a=1".to_string())), now: "t2".to_string() });
    match &next {
        ImportAction::Probe { url, cookie_header } => {
            assert_eq!(url, "https://www.javbus.com/search/IPZZ-832");
            assert_eq!(cookie_header, "a=1");
        }
        _ => panic!("expected a probe"),
    }
    match import.step(ImportEvent::Probed(Ok("<html>results</html>".to_string()))) {
        ImportAction::Finish(Ok(session)) => {
            assert_eq!(session.cookie_header, "a=1");
            assert_eq!(session.source, "Chrome / Profile 1");
            assert_eq!(session.updated_at, "t2");
        }
        _ => panic!("expected a session"),
    }
    assert_eq!(import.phase, ImportPhase::Finished);
}

#[test]
fn a_failed_import_lists_every_attempt() {
    let (mut import, _) = start_session_import("www.javbus.com", Some(" Chrome "));
    import.step(ImportEvent::Profiles(Ok(vec!["Default".to_string(), "Profile 1".to_string()])));
    import.step(ImportEvent::Cookies { header: Ok(Some("a=1".to_string())), now: "t".to_string() });
    import.step(ImportEvent::Probed(Ok("driver-verify".to_string())));
    match import.step(ImportEvent::Cookies { header: Err("无法解密 cookie a".to_string()), now: "t".to_string() }) {
        ImportAction::Finish(Err(message)) => assert_eq!(
            message,
            "未找到可用的 JavBus 浏览器会话。Chrome / Default: 已读取 cookie，但站点仍返回验证页；Chrome / Profile 1: 无法解密 cookie a"
        ),
        _ => panic!("expected a failure"),
    }
}

#[test]
fn imports_stop_on_unknown_browsers_and_unreadable_profiles() {
    let (import, first) = start_session_import("www.javbus.com", Some("Firefox"));
    assert_eq!(import.phase, ImportPhase::Finished);
    match first {
        ImportAction::Finish(Err(message)) => assert_eq!(message, "不支持的浏览器类型: firefox"),
        _ => panic!("expected a failure"),
    }
    let (mut import, _) = start_session_import("www.javbus.com", Some("edge"));
    match import.step(ImportEvent::Profiles(Err("LOCALAPPDATA 环境变量不存在".to_string()))) {
        ImportAction::Finish(Err(message)) => assert_eq!(message, "LOCALAPPDATA 环境变量不存在"),
        _ => panic!("expected a failure"),
    }
    let (mut import, _) = start_session_import("www.javbus.com", Some("edge"));
    match import.step(ImportEvent::Profiles(Ok(vec![]))) {
        ImportAction::Finish(Err(message)) => assert_eq!(message, "未找到可用的 JavBus 浏览器会话。Edge: 未找到可读取的配置目录"),
        _ => panic!("expected a failure"),
    }
}

#[test]
fn pasted_sessions() {
    assert!(matches!(manual_session("  Cookie:  \r\n ", "t"), Err(SessionError::EmptyCookie)));
    assert_eq!(SessionError::EmptyCookie.message(), "cookie 不能为空");
    let s = manual_session("Cookie: a=1;\nb=2", "now").unwrap();
    assert_eq!(s.cookie_header, "a=1; b=2");
    assert_eq!(s.source, "manual");
    assert_eq!(s.updated_at, "now");
    assert_eq!(session_probe_url("www.javbus.com"), "https://www.javbus.com/search/IPZZ-832");
    let blocked = manual_session_status("www.javbus.com", &s, "Age Verification JavBus");
    assert_eq!((blocked.status.as_str(), blocked.message.as_str()), ("blocked", "已保存 cookie，但站点仍返回年龄验证页"));
    assert!(blocked.has_cookie);
    assert_eq!(blocked.source.as_deref(), Some("manual"));
    let ok = manual_session_status("www.javbus.com", &s, "<p>ok</p>");
    assert_eq!((ok.status.as_str(), ok.message.as_str()), ("verified", "手动会话保存成功，可用于 JavBus 联网识别"));
    let imported = imported_session_status("www.javbus.com", &s);
    assert_eq!(imported.message, "浏览器会话导入成功，可用于 JavBus 联网识别");
    assert_eq!(imported.updated_at.as_deref(), Some("now"));
}

#[test]
fn plain_cookie_values_are_used_as_they_are() {
    assert!(matches!(cookie_row_value("v", b"v10garbage", &[0u8; 32]), Ok(CookieDecryption::Text(t)) if t == "v"));
    assert!(matches!(cookie_row_value("", b"v20abc", &[0u8; 32]), Err(SessionError::AppBoundCookie)));
    assert!(matches!(cookie_row_value("", b"\x01\x02", &[0u8; 32]), Ok(CookieDecryption::NeedsDpapi)));
}

#[test]
fn window_sizes_keep_the_minimum() {
    assert_eq!(window_size(800, 600), (1248, 816));
    assert_eq!(window_size(1920, 1080), (1920, 1080));
}

#[test]
fn an_import_accepts_only_the_answer_it_asked_for() {
    let (import, _) = start_session_import("www.javbus.com", None);
    assert!(import.accepts(&ImportEvent::Profiles(Ok(vec!["Default".to_string()]))));
    assert!(import.accepts(&ImportEvent::Profiles(Err("x".to_string()))));
    assert!(!import.accepts(&ImportEvent::Probed(Ok(String::new()))));
}
