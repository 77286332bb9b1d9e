use kawa_library::html::{
    extract_actor_names, extract_detail_url, extract_searchstar_avatar_url, merge_actor_names,
};

#[test]
fn extracts_actor_name_from_search_result_title_span() {
    let html = r#"
        <div class="movie-box">
          <span>背徳の寝取らせシアタールーム 低俗男たちの醜い肉棒で汚された貞淑妻ー。 新妻ゆうか<br />新妻ゆうか</span>
        </div>
        "#;
    assert_eq!(extract_actor_names(html), vec!["新妻ゆうか".to_string()]);
}

#[test]
fn extracts_actor_name_from_star_name_class() {
    let html = r#"
        <div class="star-name">佐々木さき</div>
        "#;
    assert_eq!(extract_actor_names(html), vec!["佐々木さき".to_string()]);
}

#[test]
fn extracts_searchstar_avatar_url_from_page() {
    let html = r#"<img src="/pics/actress/2jv_a.jpg" title="波多野結衣">"#;
    assert_eq!(
        extract_searchstar_avatar_url(
            html,
            "https://www.javbus.com/searchstar/%E6%B3%A2%E5%A4%9A%E9%87%8E%E7%B5%90%E8%A1%A3"
        ),
        Some("https://www.javbus.com/pics/actress/2jv_a.jpg".to_string())
    );
}

#[test]
fn finds_only_real_detail_page_url() {
    let html = r#"
        <a href="javascript:searchs(obj)">bad</a>
        <a href="/search/SIRO-5664">bad-search</a>
        <a href="/SIRO-5664">good</a>
        "#;
    assert_eq!(
        extract_detail_url(html, "https://www.javbus.com/search/SIRO-5664", "SIRO-5664"),
        Some("https://www.javbus.com/SIRO-5664".to_string())
    );
}

#[test]
fn ignores_script_noise_when_extracting_actor_names() {
    let html = r#"
        <script>
          function searchs(obj){ return 0; }
        </script>
        <div class="star-name">佐々木さき</div>
        "#;
    assert_eq!(extract_actor_names(html), vec!["佐々木さき".to_string()]);
}

#[test]
fn prefers_detail_page_actor_names_when_merging() {
    assert_eq!(
        merge_actor_names(
            vec!["Sasaki".to_string()],
            vec!["0".to_string(), "Sasaki".to_string(), "Alias".to_string()]
        ),
        vec!["Sasaki".to_string(), "0".to_string(), "Alias".to_string()]
    );
}

use kawa_library::html::{
    clean_metadata_text, decode_html_entities, extract_actor_avatar_url, extract_first_image_url,
    image_extension_from_url, is_age_verification_page, is_plausible_actor_name, strip_html_tags,
    strip_script_and_style_blocks,
};

#[test]
fn decodes_the_common_entities() {
    assert_eq!(decode_html_entities("a&amp;b &quot;c&quot; &#39;d&#39; &lt;e&gt;&nbsp;f"), "a&b \"c\" 'd' <e> f");
    assert_eq!(decode_html_entities("&amp;lt;"), "<");
}

#[test]
fn cleans_page_text() {
    assert_eq!(clean_metadata_text("  【新妻\u{a0}ゆうか】,  "), "新妻 ゆうか");
    assert_eq!(clean_metadata_text("A&nbsp;&nbsp;B"), "A B");
}

#[test]
fn strips_tags_and_scripts() {
    assert_eq!(strip_html_tags("<b>x</b>y"), " x y");
    assert_eq!(strip_script_and_style_blocks("a<script>x</script>b<STYLE>y</STYLE>c"), "a b c");
}

#[test]
fn recognises_the_age_check_page() {
    assert!(is_age_verification_page("<title>Age Verification JavBus</title>"));
    assert!(is_age_verification_page("<div class=\"driver-verify\">"));
    assert!(!is_age_verification_page("<title>IPZZ-832</title>"));
}

#[test]
fn picks_avatar_file_extensions() {
    assert_eq!(image_extension_from_url("https://x/a.PNG?x"), ".png");
    assert_eq!(image_extension_from_url("https://x/a.webp"), ".webp");
    assert_eq!(image_extension_from_url("https://x/a"), ".jpg");
}

#[test]
fn judges_actor_names() {
    assert!(is_plausible_actor_name("佐々木さき"));
    assert!(is_plausible_actor_name("Yu"));
    assert!(!is_plausible_actor_name("a"));
    assert!(!is_plausible_actor_name("Actress"));
    assert!(!is_plausible_actor_name("12345"));
    assert!(!is_plausible_actor_name("http://x"));
    assert!(!is_plausible_actor_name("a/b"));
    assert!(!is_plausible_actor_name("searchs(obj)"));
}

#[test]
fn finds_avatar_images() {
    let html = r#"<a href="/star/abc"><div><img src="/pics/star/abc.jpg"></div></a>"#;
    assert_eq!(
        extract_actor_avatar_url(html, "https://www.javbus.com/IPZZ-832"),
        Some("https://www.javbus.com/pics/star/abc.jpg".to_string())
    );
    let page = r#"<img src="/img/logo.png"><img src="/img/blank.gif"><img src="x.svg"><img src="/pics/a.jpg">"#;
    assert_eq!(
        extract_first_image_url(page, "https://www.javbus.com/IPZZ-832"),
        Some("https://www.javbus.com/pics/a.jpg".to_string())
    );
    assert_eq!(extract_first_image_url("<p>none</p>", "https://www.javbus.com/"), None);
}

#[test]
fn merged_names_keep_detail_names_first_and_each_once() {
    let merged = merge_actor_names(
        vec!["A".to_string(), String::new(), "B".to_string()],
        vec!["B".to_string(), "C".to_string(), "A".to_string()],
    );
    assert_eq!(merged, vec!["A".to_string(), "B".to_string(), "C".to_string()]);
}

use kawa_library::html::{
    admit_candidates, block_candidate_list, detail_link_decision, element_candidate_list,
    first_detail_link_in, first_image_in, image_decision, image_from_captures,
    title_candidate_list,
};

fn caps(groups: &[Option<&str>]) -> Vec<Option<String>> {
    groups.iter().map(|g| g.map(|s| s.to_string())).collect()
}

#[test]
fn candidates_come_from_the_capture_groups() {
    let elements = vec![caps(&[Some("x"), Some("<b> 佐々木さき </b>")]), caps(&[Some("y"), None])];
    assert_eq!(element_candidate_list(&elements), vec!["佐々木さき".to_string(), String::new()]);
    let titles = vec![caps(&[Some("x"), Some("t"), Some(" 新妻ゆうか ")])];
    assert_eq!(title_candidate_list(&titles), vec!["新妻ゆうか".to_string()]);
    let blocks = vec![caps(&[Some("x"), Some("t"), Some("<i>Ann</i>、Bob")])];
    assert_eq!(block_candidate_list(&blocks), vec!["Ann".to_string(), "Bob".to_string()]);
    let mut names = vec!["Ann".to_string()];
    admit_candidates(&mut names, &vec!["Bob".to_string(), "Ann".to_string(), "12345".to_string(), "Bob".to_string()]);
    assert_eq!(names, vec!["Ann".to_string(), "Bob".to_string()]);
}

#[test]
fn link_and_image_matches_decide_in_turn() {
    let base = "https://www.javbus.com/search/SIRO-5664";
    assert_eq!(detail_link_decision(&caps(&[Some("a")]), base, "SIRO5664"), Some(None));
    assert_eq!(detail_link_decision(&caps(&[Some("a"), Some("/search/SIRO-5664")]), base, "SIRO5664"), None);
    assert_eq!(
        detail_link_decision(&caps(&[Some("a"), Some("/SIRO-5664")]), base, "SIRO5664"),
        Some(Some("https://www.javbus.com/SIRO-5664".to_string()))
    );
    let links = vec![caps(&[Some("a"), Some("javascript:x")]), caps(&[Some("a"), Some("/SIRO-5664")])];
    assert_eq!(first_detail_link_in(&links, base, "SIRO5664"), Some("https://www.javbus.com/SIRO-5664".to_string()));
    let cut = vec![caps(&[Some("a")]), caps(&[Some("a"), Some("/SIRO-5664")])];
    assert_eq!(first_detail_link_in(&cut, base, "SIRO5664"), None);

    let page = "https://www.javbus.com/IPZZ-832";
    assert_eq!(image_decision(&caps(&[Some("i"), Some("/img/LOGO.png")]), page), None);
    assert_eq!(image_decision(&caps(&[Some("i")]), page), Some(None));
    assert_eq!(
        image_decision(&caps(&[Some("i"), Some("/pics/a.jpg?x=1&amp;y=2")]), page),
        Some(Some("https://www.javbus.com/pics/a.jpg?x=1&y=2".to_string()))
    );
    let images = vec![caps(&[Some("i"), Some("x.SVG")]), caps(&[Some("i"), Some("/pics/b.jpg")])];
    assert_eq!(first_image_in(&images, page), Some("https://www.javbus.com/pics/b.jpg".to_string()));
    assert_eq!(first_image_in(&vec![], page), None);
    assert_eq!(
        image_from_captures(Some(caps(&[Some("i"), Some("/pics/star/abc.jpg")])), page),
        Some("https://www.javbus.com/pics/star/abc.jpg".to_string())
    );
    assert_eq!(image_from_captures(None, page), None);
}
