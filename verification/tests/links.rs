use ebloid::links::{
    destination_from_deep_link, is_downloadable_url, is_ebloid_url, is_embedded_navigation,
    is_system_link, suggested_filename, WebUrl,
};
use ebloid::routing::{
    deep_link_action, external_link, navigation_decision, new_window_decision, DeepLinkAction,
    NavigationDecision, NewWindowDecision, SettingsSection,
};

fn url(text: &str) -> WebUrl {
    WebUrl::parse(text).unwrap()
}

#[test]
fn keeps_only_ebloid_pages_inside_the_webview() {
    assert!(is_ebloid_url(&url("https://eblo.id/video")));
    assert!(is_ebloid_url(&url("https://static.eblo.id/player")));
    assert!(!is_ebloid_url(&url("https://youtube.com/watch?v=1")));
    assert!(!is_ebloid_url(&url("https://eblo.id.example.com/")));
}

#[test]
fn allows_internal_webview_schemes_without_opening_a_browser() {
    assert!(is_embedded_navigation(&url("about:blank")));
    assert!(is_embedded_navigation(&url("blob:https://eblo.id/9f0c")));
}

#[test]
fn parses_urls_into_their_parts() {
    let u = url("HTTPS://Eblo.id/a/b?x=1&y=two+words#frag");
    assert_eq!(u.scheme, "https");
    assert_eq!(u.host.as_deref(), Some("eblo.id"));
    assert_eq!(u.path, "/a/b");
    assert_eq!(u.query.as_deref(), Some("x=1&y=two+words"));
    assert_eq!(
        u.query_pairs,
        vec![("x".to_string(), "1".to_string()), ("y".to_string(), "two words".to_string())]
    );
    assert_eq!(u.href, "https://eblo.id/a/b?x=1&y=two+words#frag");
    assert_eq!(WebUrl::parse("not a url").err().as_deref(), Some("relative URL without a base"));
}

#[test]
fn classifies_links() {
    assert!(!is_ebloid_url(&url("ftp://eblo.id/file")));
    assert!(!is_ebloid_url(&url("https://noteblo.id/")));
    assert!(is_system_link(&url("mailto:someone@example.com")));
    assert!(is_system_link(&url("tel:+100")));
    assert!(!is_system_link(&url("file:///etc/passwd")));
    assert!(is_downloadable_url(&url("http://example.com/a.zip")));
    assert!(!is_downloadable_url(&url("mailto:a@b.c")));
    assert!(is_embedded_navigation(&url("data:text/plain,hi")));
    assert!(!is_embedded_navigation(&url("https://example.com/")));
}

#[test]
fn suggests_names_from_the_last_path_segment() {
    assert_eq!(suggested_filename(&url("https://cdn.eblo.id/media/clip.mp4")), "clip.mp4");
    assert_eq!(suggested_filename(&url("https://cdn.eblo.id/media/clip.mp4/")), "clip.mp4");
    assert_eq!(suggested_filename(&url("https://cdn.eblo.id/media/clip")), "ebloid-download");
    assert_eq!(suggested_filename(&url("https://cdn.eblo.id/")), "ebloid-download");
    assert_eq!(suggested_filename(&url("data:text/plain,a.b")), "ebloid-download");
}

#[test]
fn deep_links_lead_to_site_pages_only() {
    let d = destination_from_deep_link(&url("ebloid://video/123?t=5")).unwrap();
    assert_eq!(d.href, "https://eblo.id/video/123?t=5");
    let d = destination_from_deep_link(&url("ebloid://open?url=https%3A%2F%2Fm.eblo.id%2Fx")).unwrap();
    assert_eq!(d.href, "https://m.eblo.id/x");
    assert!(destination_from_deep_link(&url("ebloid://open?url=https%3A%2F%2Fexample.com")).is_none());
    assert!(destination_from_deep_link(&url("ebloid://open?next=https%3A%2F%2Feblo.id")).is_none());
    assert!(destination_from_deep_link(&url("ebloid://share/abc")).is_none());
    assert!(destination_from_deep_link(&url("https://eblo.id/video")).is_none());
}

#[test]
fn routes_deep_links() {
    assert!(matches!(
        deep_link_action(&url("ebloid://downloads")),
        DeepLinkAction::OpenSettings(SettingsSection::Downloads)
    ));
    assert!(matches!(
        deep_link_action(&url("ebloid://settings/anything")),
        DeepLinkAction::OpenSettings(SettingsSection::General)
    ));
    match deep_link_action(&url("ebloid://feed")) {
        DeepLinkAction::Navigate(d) => assert_eq!(d.href, "https://eblo.id/feed"),
        _ => panic!("expected a page"),
    }
    assert!(matches!(deep_link_action(&url("ebloid://share")), DeepLinkAction::Ignore));
}

#[test]
fn decides_navigation_and_new_windows() {
    assert_eq!(navigation_decision(&url("https://eblo.id/")), NavigationDecision::Allow);
    assert_eq!(navigation_decision(&url("about:blank")), NavigationDecision::Allow);
    assert_eq!(
        navigation_decision(&url("https://youtube.com/")),
        NavigationDecision::OpenExternally
    );
    assert_eq!(navigation_decision(&url("javascript:alert(1)")), NavigationDecision::Block);
    assert_eq!(new_window_decision(&url("https://eblo.id/x")), NewWindowDecision::ShowInMain);
    assert_eq!(
        new_window_decision(&url("mailto:a@b.c")),
        NewWindowDecision::OpenExternally
    );
    assert_eq!(new_window_decision(&url("about:blank")), NewWindowDecision::Ignore);
}

#[test]
fn external_links_must_be_system_links() {
    assert_eq!(external_link("https://example.com/").unwrap().href, "https://example.com/");
    assert_eq!(
        external_link("file:///tmp/x").err().as_deref(),
        Some("Эту ссылку нельзя открыть во внешнем приложении")
    );
    assert_eq!(external_link("").err().as_deref(), Some("relative URL without a base"));
}
