//! Links and addresses.

use weaver::url_utils::{
    build_base_url, build_url, direct_logo_url, followable_href, internal_path, is_same_domain,
    is_static_resource, normalize_path, normalize_to_internal_path, resolve_logo_url, resolve_url,
    root_of, ParsedUrl,
};

fn url(scheme: &str, host: Option<&str>, path: &str) -> ParsedUrl {
    ParsedUrl {
        href: String::new(),
        scheme: scheme.to_string(),
        host: host.map(String::from),
        path: path.to_string(),
    }
}

#[test]
fn test_normalize_path() {
    assert_eq!(normalize_path("/"), "/");
    assert_eq!(normalize_path(""), "/");
    assert_eq!(normalize_path("/about/"), "/about");
    assert_eq!(normalize_path("/about"), "/about");
    assert_eq!(normalize_path("about"), "/about");
}

#[test]
fn test_is_same_domain() {
    assert!(is_same_domain("example.com", "example.com"));
    assert!(is_same_domain("www.example.com", "example.com"));
    assert!(is_same_domain("example.com", "www.example.com"));
    assert!(is_same_domain("EXAMPLE.COM", "example.com"));
    assert!(!is_same_domain("other.com", "example.com"));
}

#[test]
fn test_normalize_to_internal_path() {
    let base = build_url("example.com", "/page").unwrap();
    assert_eq!(base.href, "https://example.com/page");

    // Internal paths
    assert_eq!(
        normalize_to_internal_path("/about", "example.com", &base),
        Some("/about".to_string())
    );
    assert_eq!(
        normalize_to_internal_path("./contact", "example.com", &base),
        Some("/contact".to_string())
    );
    assert_eq!(
        normalize_to_internal_path("https://example.com/test", "example.com", &base),
        Some("/test".to_string())
    );

    // External should return None
    assert_eq!(normalize_to_internal_path("https://other.com/page", "example.com", &base), None);

    // Special URLs should return None
    assert_eq!(normalize_to_internal_path("javascript:void(0)", "example.com", &base), None);
    assert_eq!(normalize_to_internal_path("mailto:test@example.com", "example.com", &base), None);
    assert_eq!(normalize_to_internal_path("#section", "example.com", &base), None);

    // Static resources should return None
    assert_eq!(normalize_to_internal_path("/style.css", "example.com", &base), None);
}

#[test]
fn test_resolve_logo_url() {
    // Absolute URL
    assert_eq!(
        resolve_logo_url("https://example.com/logo.png", "example.com", "/"),
        Some("https://example.com/logo.png".to_string())
    );

    // Protocol-relative
    assert_eq!(
        resolve_logo_url("//cdn.example.com/logo.png", "example.com", "/"),
        Some("https://cdn.example.com/logo.png".to_string())
    );

    // Relative to root
    assert_eq!(
        resolve_logo_url("/images/logo.png", "example.com", "/about"),
        Some("https://example.com/images/logo.png".to_string())
    );

    // Relative to current path
    assert_eq!(
        resolve_logo_url("logo.png", "example.com", "/about/"),
        Some("https://example.com/about/logo.png".to_string())
    );
}

#[test]
fn urls_have_their_parts() {
    let root = build_base_url("Example.com").unwrap();
    assert_eq!(root.href, "https://example.com/");
    assert_eq!(root.scheme, "https");
    assert_eq!(root.host, Some("example.com".to_string()));
    assert_eq!(root.path, "/");
    assert_eq!(build_base_url("not a domain"), None);
    assert_eq!(build_url("not a domain", "/"), None);
    let page = build_url("example.com", "/a b?q=1#f").unwrap();
    assert_eq!(page.path, "/a%20b");
    assert_eq!(page.href, "https://example.com/a%20b?q=1#f");
    assert_eq!(root_of("example.com"), "https://example.com/");
}

#[test]
fn links_are_resolved_on_their_page() {
    let base = build_url("example.com", "/dir/page").unwrap();
    assert_eq!(resolve_url(&base, " other ").unwrap().href, "https://example.com/dir/other");
    assert_eq!(resolve_url(&base, "../up").unwrap().path, "/up");
    assert_eq!(resolve_url(&base, "//x.com/y").unwrap().host, Some("x.com".to_string()));
    assert_eq!(resolve_url(&base, "http://[bad"), None);
    for href in ["", "  ", "javascript:x", "mailto:a@b", "tel:1", "data:x", "#x", " #x"] {
        assert_eq!(resolve_url(&base, href), None);
        assert_eq!(followable_href(href), None);
    }
    assert_eq!(followable_href(" /x "), Some("/x".to_string()));
    assert_eq!(followable_href("JavaScript:x"), Some("JavaScript:x".to_string()));
}

#[test]
fn a_path_is_internal_or_not() {
    let page = url("https", Some("www.example.com"), "/A/B/");
    assert_eq!(internal_path(&page, "/a/b/", "example.com"), Some("/A/B".to_string()));
    let plain = url("http", Some("example.com"), "");
    assert_eq!(internal_path(&plain, "", "example.com"), Some("/".to_string()));
    assert_eq!(internal_path(&page, "/a/b.css", "example.com"), None);
    assert_eq!(internal_path(&page, "/a/b/", "example.org"), None);
    assert_eq!(internal_path(&url("ftp", Some("example.com"), "/"), "/", "example.com"), None);
    assert_eq!(internal_path(&url("https", None, "/"), "/", "example.com"), None);
}

#[test]
fn static_resources_are_known_by_their_end() {
    for ext in [
        ".css", ".js", ".json", ".xml", ".txt", ".pdf", ".doc", ".docx", ".xls", ".xlsx", ".ppt",
        ".pptx", ".zip", ".tar", ".gz", ".rar", ".7z", ".mp3", ".mp4", ".avi", ".mov", ".wmv",
        ".flv", ".webm", ".ogg", ".wav", ".woff", ".woff2", ".ttf", ".eot", ".otf",
    ] {
        assert!(is_static_resource(&format!("/a{ext}")));
        assert!(!is_static_resource(&format!("/a{ext}/b")));
    }
    assert!(!is_static_resource("/a.html"));
    assert!(!is_static_resource("/a.png"));
    assert!(!is_static_resource("/a.CSS"));
    assert!(!is_static_resource("/"));
}

#[test]
fn static_resources_are_known_in_upper_case_too() {
    let base = build_base_url("example.com").unwrap();
    assert_eq!(normalize_to_internal_path("/STYLE.CSS", "example.com", &base), None);
    assert_eq!(
        normalize_to_internal_path("/STYLE", "example.com", &base),
        Some("/STYLE".to_string())
    );
}

#[test]
fn www_is_stripped_as_often_as_it_stands() {
    assert!(is_same_domain("www.www.example.com", "www.example.com"));
    assert!(is_same_domain("www.", ""));
    assert!(!is_same_domain("WWW.example.com", "example.com"));
    assert!(!is_same_domain("ww.example.com", "example.com"));
    assert!(!is_same_domain("example.co", "example.com"));
}

#[test]
fn normal_paths() {
    assert_eq!(normalize_path("  /x/  "), "/x");
    assert_eq!(normalize_path("//"), "/");
    assert_eq!(normalize_path("/a//"), "/a");
    assert_eq!(normalize_path("a/b/"), "/a/b");
    for path in ["/", "/x", "a/b", " /x/ ", "///"] {
        let once = normalize_path(path);
        assert!(once.starts_with('/'));
        assert_eq!(normalize_path(&once), once);
    }
    // White space before the last slash stays, and is trimmed the second time.
    assert_eq!(normalize_path("/a /"), "/a ");
    assert_eq!(normalize_path("/a "), "/a");
}

#[test]
fn logos_by_url() {
    assert_eq!(direct_logo_url(" http://x.com/l "), Some("http://x.com/l".to_string()));
    assert_eq!(direct_logo_url("//x.com/l"), Some("https://x.com/l".to_string()));
    assert_eq!(direct_logo_url("/l"), None);
    assert_eq!(resolve_logo_url("data:image/png;base64,", "example.com", "/"), None);
    assert_eq!(resolve_logo_url("l.png", "not a domain", "/"), None);
    assert_eq!(resolve_logo_url("", "example.com", "/"), None);
}
