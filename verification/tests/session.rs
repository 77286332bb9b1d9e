use aes_gcm::aead::{Aead, KeyInit};
use aes_gcm::{Aes256Gcm, Nonce};
use base64::Engine;
use kawa_library::session::{
    chromium_cookie_db_path, cookie_header_from_values, cookie_host_matches,
    cookie_text_from_bytes, decrypt_chromium_cookie_value, http_get, http_get_bytes_with_session,
    http_get_text_with_session, master_key_payload, metadata_session_status_from_row,
    normalize_cookie_header_value, paths_same_ignore_case, requested_browser_kinds,
    response_read_size, select_cookie_rows, stable_path_hash, system_time_to_unix, to_wide,
    BrowserKind, CookieDecryption, MetadataSession, SessionError, BASE_REQUEST_HEADERS,
};

#[test]
fn missing_session_row_reads_as_missing() {
    let status = metadata_session_status_from_row("www.javbus.com", None);
    assert_eq!(status.site_host, "www.javbus.com");
    assert!(!status.has_cookie);
    assert_eq!(status.status, "missing");
    assert_eq!(status.message, "未导入浏览器会话");
    assert_eq!(status.source, None);
}

#[test]
fn stored_session_row_is_shown_as_stored() {
    let row = (
        "Edge / Default".to_string(),
        "verified".to_string(),
        "ok".to_string(),
        "2024-01-01 00:00:00 UTC".to_string(),
    );
    let status = metadata_session_status_from_row("www.javbus.com", Some(row));
    assert!(status.has_cookie);
    assert_eq!(status.source.as_deref(), Some("Edge / Default"));
    assert_eq!(status.status, "verified");
    assert_eq!(status.updated_at.as_deref(), Some("2024-01-01 00:00:00 UTC"));
}

#[test]
fn normalizes_pasted_cookie_headers() {
    assert_eq!(normalize_cookie_header_value("  Cookie: a=1;\r\nb=2  "), "a=1;  b=2");
    assert_eq!(normalize_cookie_header_value("cookie: x=y"), "x=y");
    assert_eq!(normalize_cookie_header_value("   "), "");
}

#[test]
fn normalized_cookie_header_is_one_line() {
    let value = normalize_cookie_header_value("\n a=1\r\n\r\nb=2 \n");
    assert!(!value.contains('\n') && !value.contains('\r'));
    assert_eq!(value, value.trim());
}

#[test]
fn matches_cookie_hosts_of_the_site() {
    assert!(cookie_host_matches(".javbus.com", "www.javbus.com"));
    assert!(cookie_host_matches("WWW.JAVBUS.COM", "www.javbus.com"));
    assert!(cookie_host_matches("img.javbus.com", "www.javbus.com"));
    assert!(!cookie_host_matches("notjavbus.com", "www.javbus.com"));
    assert!(!cookie_host_matches("javbus.com.evil", "www.javbus.com"));
}

#[test]
fn selects_the_first_cookie_of_each_name_for_the_site() {
    let rows = vec![
        ("a".to_string(), ".javbus.com".to_string()),
        ("b".to_string(), "other.com".to_string()),
        ("a".to_string(), "www.javbus.com".to_string()),
        ("b".to_string(), "javbus.com".to_string()),
    ];
    assert_eq!(select_cookie_rows(&rows, "www.javbus.com"), vec![0, 3]);
}

#[test]
fn joins_cookie_values_without_blank_ones() {
    let pairs = vec![
        ("a".to_string(), "1".to_string()),
        ("b".to_string(), "  ".to_string()),
        ("c".to_string(), "3".to_string()),
    ];
    assert_eq!(cookie_header_from_values(&pairs), Some("a=1; c=3".to_string()));
    let blank = vec![("a".to_string(), String::new())];
    assert_eq!(cookie_header_from_values(&blank), None);
}

#[test]
fn picks_requested_browsers() {
    assert_eq!(requested_browser_kinds(None).unwrap(), vec![BrowserKind::Edge, BrowserKind::Chrome]);
    assert_eq!(requested_browser_kinds(Some("  ")).unwrap(), vec![BrowserKind::Edge, BrowserKind::Chrome]);
    assert_eq!(requested_browser_kinds(Some(" Edge ")).unwrap(), vec![BrowserKind::Edge]);
    assert_eq!(requested_browser_kinds(Some("CHROME")).unwrap(), vec![BrowserKind::Chrome]);
    let error = requested_browser_kinds(Some(" Firefox ")).unwrap_err();
    assert_eq!(error.message(), "不支持的浏览器类型: firefox");
    assert_eq!(BrowserKind::Edge.label(), "Edge");
    assert_eq!(BrowserKind::Chrome.label(), "Chrome");
}

#[test]
fn picks_the_newer_cookie_database_first() {
    assert_eq!(chromium_cookie_db_path("/p", true, true), Some("/p/Network/Cookies".to_string()));
    assert_eq!(chromium_cookie_db_path("/p", false, true), Some("/p/Cookies".to_string()));
    assert_eq!(chromium_cookie_db_path("/p", false, false), None);
}

#[test]
fn hashes_paths_with_fnv1a() {
    assert_eq!(stable_path_hash(""), "cbf29ce484222325");
    assert_eq!(stable_path_hash("a"), "af63dc4c8601ec8c");
    let hash = stable_path_hash("D:\\KawaLibrary\\演员");
    assert_eq!(hash.len(), 16);
    assert!(hash.chars().all(|c| c.is_ascii_hexdigit() && !c.is_ascii_uppercase()));
}

#[test]
fn decrypts_cookie_values_by_version() {
    let key = [7u8; 32];
    let cipher = Aes256Gcm::new_from_slice(&key).unwrap();
    let nonce = [9u8; 12];
    let sealed = cipher.encrypt(Nonce::from_slice(&nonce), b"session-token".as_ref()).unwrap();
    let mut value = b"v10".to_vec();
    value.extend_from_slice(&nonce);
    value.extend_from_slice(&sealed);
    match decrypt_chromium_cookie_value(&value, &key).unwrap() {
        CookieDecryption::Text(text) => assert_eq!(text, "session-token"),
        CookieDecryption::NeedsDpapi => panic!("expected text"),
    }
    assert!(matches!(decrypt_chromium_cookie_value(&value, &[1u8; 16]), Err(SessionError::InvalidMasterKey)));
    let mut broken = value.clone();
    let last = broken.len() - 1;
    broken[last] ^= 1;
    assert!(matches!(decrypt_chromium_cookie_value(&broken, &key), Err(SessionError::DecryptionFailed)));
    assert!(matches!(decrypt_chromium_cookie_value(b"", &key), Ok(CookieDecryption::Text(t)) if t.is_empty()));
    assert!(matches!(decrypt_chromium_cookie_value(b"v20abc", &key), Err(SessionError::AppBoundCookie)));
    assert!(matches!(decrypt_chromium_cookie_value(b"v11short", &key), Err(SessionError::CiphertextTooShort)));
    assert!(matches!(decrypt_chromium_cookie_value(b"\x01\x02\x03", &key), Ok(CookieDecryption::NeedsDpapi)));
}

#[test]
fn error_messages_match_the_app() {
    assert_eq!(SessionError::AppBoundCookie.message(), "浏览器 cookie 使用 v20 加密，当前自动导入不可用");
    assert_eq!(SessionError::CiphertextTooShort.message(), "cookie 密文长度不足");
    assert_eq!(SessionError::InvalidMasterKey.message(), "浏览器主密钥无效");
    assert_eq!(SessionError::DecryptionFailed.message(), "AES-GCM 解密失败");
    assert_eq!(SessionError::InvalidUtf8.message(), "cookie 不是有效 UTF-8");
    assert_eq!(SessionError::InvalidBase64.message(), "encrypted_key 不是合法 Base64");
    assert_eq!(SessionError::InvalidUrl.message(), "URL 无效");
    assert_eq!(SessionError::HttpStatus(503).message(), "HTTP 状态码 503");
}

#[test]
fn reads_dpapi_output_as_utf8() {
    assert_eq!(cookie_text_from_bytes("值".as_bytes().to_vec()).unwrap(), "值");
    assert!(matches!(cookie_text_from_bytes(vec![0xff, 0xfe]), Err(SessionError::InvalidUtf8)));
}

#[test]
fn strips_the_dpapi_marker_from_the_master_key() {
    let encoded = base64::engine::general_purpose::STANDARD.encode(b"DPAPIsecret");
    assert_eq!(master_key_payload(&encoded).unwrap(), b"secret".to_vec());
    let plain = base64::engine::general_purpose::STANDARD.encode(b"raw");
    assert_eq!(master_key_payload(&plain).unwrap(), b"raw".to_vec());
    assert!(matches!(master_key_payload("not base64!"), Err(SessionError::InvalidBase64)));
}

#[test]
fn plans_get_requests() {
    let session = MetadataSession {
        cookie_header: " a=1 ".to_string(),
        source: "manual".to_string(),
        updated_at: String::new(),
    };
    let request = http_get("https://www.javbus.com/search/IPZZ-832", Some(&session), Some("https://r/")).unwrap();
    assert_eq!(request.host, "www.javbus.com");
    assert_eq!(request.port, 443);
    assert!(request.secure);
    assert_eq!(request.path, "/search/IPZZ-832");
    assert_eq!(
        request.headers,
        format!("{}; a=1\r\nReferer: https://r/\r\n", BASE_REQUEST_HEADERS)
    );
    let plain = http_get("http://example.com:8080", None, None).unwrap();
    assert_eq!(plain.port, 8080);
    assert!(!plain.secure);
    assert_eq!(plain.path, "/");
    assert_eq!(plain.headers, format!("{}\r\n", BASE_REQUEST_HEADERS));
    assert!(matches!(http_get("ftp://x", None, None), Err(SessionError::InvalidUrl)));
}

#[test]
fn limits_response_reads() {
    assert_eq!(response_read_size(100, 0), 100);
    assert_eq!(response_read_size(100, 11_999_950), 50);
    assert_eq!(response_read_size(100, 12_000_000), 0);
}

#[test]
fn accepts_success_and_redirect_statuses_only() {
    assert_eq!(http_get_text_with_session(200, "页面".as_bytes()).unwrap(), "页面");
    assert_eq!(http_get_text_with_session(302, &[0x61, 0xff]).unwrap(), "a\u{fffd}");
    let error = http_get_text_with_session(404, b"").unwrap_err();
    assert_eq!(error.message(), "HTTP 状态码 404");
    assert!(matches!(http_get_bytes_with_session(199, vec![1]), Err(SessionError::HttpStatus(199))));
    assert_eq!(http_get_bytes_with_session(399, vec![1, 2]).unwrap(), vec![1, 2]);
}

#[test]
fn encodes_wide_strings() {
    assert_eq!(to_wide("a😀"), vec![0x61, 0xD83D, 0xDE00, 0]);
    assert_eq!(to_wide(""), vec![0]);
    let expected: Vec<u16> = "Kawa 库".encode_utf16().chain(std::iter::once(0)).collect();
    assert_eq!(to_wide("Kawa 库"), expected);
}

#[test]
fn converts_times_to_unix_seconds() {
    assert_eq!(system_time_to_unix(Some(1_700_000_000)), 1_700_000_000);
    assert_eq!(system_time_to_unix(None), 0);
    assert_eq!(system_time_to_unix(Some(u64::MAX)), i64::MAX);
}

#[test]
fn compares_paths_ignoring_ascii_case() {
    assert!(paths_same_ignore_case("D:\\Lib\\A.mp4", "d:\\lib\\a.MP4"));
    assert!(!paths_same_ignore_case("D:\\Lib\\A.mp4", "D:\\Lib\\B.mp4"));
}
