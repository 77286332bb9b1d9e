use kawa_library::url::{
    build_actor_search_url, build_metadata_search_url, build_metadata_type_one_search_url,
    is_detail_page_url, normalize_site_host, normalize_site_url, percent_encode_path_segment,
    resolve_url, ParsedUrl,
};

#[test]
fn parses_site_addresses() {
    let p = ParsedUrl::parse(" HTTPS://Example.com:8443/a/b?q=1 ").unwrap();
    assert_eq!(p.scheme, "https");
    assert_eq!(p.host, "Example.com");
    assert_eq!(p.port, Some(8443));
    assert_eq!(p.path, "/a/b?q=1");
    assert_eq!(p.authority(), "Example.com:8443");
    let bare = ParsedUrl::parse("www.javbus.com").unwrap();
    assert_eq!((bare.scheme.as_str(), bare.host.as_str(), bare.port, bare.path.as_str()), ("https", "www.javbus.com", None, "/"));
    let odd_port = ParsedUrl::parse("http://h:x/").unwrap();
    assert_eq!(odd_port.host, "h:x");
    assert_eq!(odd_port.authority(), "h:x");
    assert_eq!(ParsedUrl::parse("http://h:+80/").unwrap().port, Some(80));
    assert!(ParsedUrl::parse("ftp://h/").is_none());
    assert!(ParsedUrl::parse("https:///x").is_none());
}

#[test]
fn normalizes_sites() {
    assert_eq!(normalize_site_url(" www.javbus.com/ "), "https://www.javbus.com");
    assert_eq!(normalize_site_url("http://a.b//"), "http://a.b");
    assert_eq!(normalize_site_host("https://WWW.JavBus.com/"), "www.javbus.com");
    assert_eq!(normalize_site_host("ftp://x"), "ftp:");
    assert_eq!(normalize_site_host("   "), "www.javbus.com");
}

#[test]
fn builds_search_addresses() {
    assert_eq!(build_metadata_search_url("www.javbus.com/", "IPZZ-832"), "https://www.javbus.com/search/IPZZ-832");
    assert_eq!(
        build_metadata_type_one_search_url("https://www.javbus.com", "IPZZ-832"),
        "https://www.javbus.com/search/IPZZ-832&type=1"
    );
    assert_eq!(
        build_actor_search_url("www.javbus.com", "波多野結衣"),
        "https://www.javbus.com/searchstar/%E6%B3%A2%E5%A4%9A%E9%87%8E%E7%B5%90%E8%A1%A3"
    );
}

#[test]
fn percent_encodes_path_segments() {
    assert_eq!(percent_encode_path_segment("a b/c~d_e.f-1"), "a%20b%2Fc~d_e.f-1");
    let encoded = percent_encode_path_segment("名 ?#");
    assert!(encoded.chars().all(|c| c.is_ascii_alphanumeric() || "-_.~%".contains(c)));
}

#[test]
fn resolves_links_against_pages() {
    let base = "https://www.javbus.com/search/SIRO-5664";
    assert_eq!(resolve_url(base, " https://x.y/z "), "https://x.y/z");
    assert_eq!(resolve_url(base, "//cdn.example/a.jpg"), "https://cdn.example/a.jpg");
    assert_eq!(resolve_url(base, "/pics/a.jpg"), "https://www.javbus.com/pics/a.jpg");
    assert_eq!(resolve_url(base, "pics/a.jpg"), "https://www.javbus.com/search/pics/a.jpg");
    assert_eq!(resolve_url("https://h:81/x", "y"), "https://h:81/y");
    assert_eq!(resolve_url("not a url at all ftp://", "y"), "https://www.javbus.com/y");
}

#[test]
fn recognises_detail_pages() {
    assert!(is_detail_page_url("https://www.javbus.com/SIRO-5664", "SIRO5664"));
    assert!(is_detail_page_url("https://www.javbus.com/siro-5664/", "SIRO5664"));
    assert!(!is_detail_page_url("https://www.javbus.com/search/SIRO-5664", "SIRO5664"));
    assert!(!is_detail_page_url("https://www.javbus.com/STAR-123", "STAR123"));
    assert!(!is_detail_page_url("https://www.javbus.com/", "SIRO5664"));
    assert!(!is_detail_page_url("ftp://www.javbus.com/SIRO-5664", "SIRO5664"));
}

#[test]
fn normalized_sites_keep_their_form() {
    for site in [" www.javbus.com/ ", "http://a.b//", "https://x.y/path/", "a"] {
        let r = normalize_site_url(site);
        assert!(r.starts_with("http://") || r.starts_with("https://"));
        assert!(!r.ends_with('/'));
        assert_eq!(normalize_site_url(&r), r);
    }
}

#[test]
fn rebuilt_addresses_parse_to_the_same_parts() {
    for url in [" HTTPS://Example.com:8443/a/b?q=1 ", "www.javbus.com", "http://h:x/", "http://h:1:2/p", "http://h:080"] {
        let p = ParsedUrl::parse(url).unwrap();
        let rebuilt = format!("{}://{}{}", p.scheme, p.authority(), p.path);
        let q = ParsedUrl::parse(&rebuilt).unwrap();
        assert_eq!((q.scheme, q.host, q.port, q.path), (p.scheme.clone(), p.host.clone(), p.port, p.path.clone()));
    }
    assert_eq!(ParsedUrl::parse("http://h:080").unwrap().authority(), "h:80");
}
