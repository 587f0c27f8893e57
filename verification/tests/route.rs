use tauri_plugin_localhost::route::{
    asset_cache, is_immutable_asset, path_or_url, request_path, static_cache, static_candidate,
};

#[test]
fn the_path_of_a_url_has_no_query() {
    assert_eq!(request_path("/app.js"), "/app.js");
    assert_eq!(request_path("/app.js?v=1"), "/app.js");
    assert_eq!(request_path("/app.js#top"), "/app.js");
    assert_eq!(request_path("/a/b.html?x#y"), "/a/b.html");
    assert_eq!(request_path("http://localhost:1430/a.css?x"), "/a.css");
    assert_eq!(request_path("http://localhost:1430"), "/");
    assert_eq!(request_path("*"), "*");
    assert_eq!(request_path("/a%20b"), "/a%20b");
}

#[test]
fn a_url_that_is_no_uri_is_taken_whole() {
    assert_eq!(request_path(""), "");
    assert_eq!(request_path("/a b?c"), "/a b?c");
    assert_eq!(request_path("/a\u{7f}"), "/a\u{7f}");
    assert_eq!(path_or_url(None, "/a b"), "/a b");
    assert_eq!(path_or_url(Some("/x".to_string()), "/a b"), "/x");
}

#[test]
fn the_static_file_is_the_path_below_the_root() {
    assert_eq!(static_candidate("/app.js"), "app.js");
    assert_eq!(static_candidate("//a/b.js"), "a/b.js");
    assert_eq!(static_candidate("a/b.js"), "a/b.js");
    assert_eq!(static_candidate("/a b?c#d"), "a b");
    assert_eq!(static_candidate("/a#c?d"), "a");
    assert_eq!(static_candidate("/a/?x"), "a/");
}

#[test]
fn the_root_stands_for_the_index() {
    assert_eq!(static_candidate("/"), "index.html");
    assert_eq!(static_candidate(""), "index.html");
    assert_eq!(static_candidate("///"), "index.html");
    assert_eq!(static_candidate("/?v=1"), "index.html");
    assert_eq!(static_candidate("#top"), "index.html");
}

#[test]
fn astro_chunks_never_change() {
    assert!(is_immutable_asset("/_astro/chunk.js"));
    assert!(is_immutable_asset("_astro/chunk.js"));
    assert!(!is_immutable_asset("/a/_astro/chunk.js"));
    assert!(!is_immutable_asset("//_astro/chunk.js"));
    assert!(!is_immutable_asset("/_astro"));
    assert!(!is_immutable_asset("/index.html"));
    assert!(!is_immutable_asset(""));
}

#[test]
fn names_with_a_content_hash_never_change() {
    assert!(is_immutable_asset("/assets/app-3f9ab2c1.js"));
    assert!(is_immutable_asset("app-ABCDEFGH"));
    assert!(is_immutable_asset("/assets/app-0123456789.css"));
    assert!(is_immutable_asset("/a-b-01234567.js"));
    assert!(!is_immutable_asset("/assets/app-3f9ab2c.js"));
    assert!(!is_immutable_asset("/assets/app.3f9ab2c1.js"));
    assert!(!is_immutable_asset("/assets/app-3f9a_2c1.js"));
    assert!(!is_immutable_asset("/dir-3f9ab2c1/app.js"));
    assert!(!is_immutable_asset("/a b.js?v-3f9ab2c1"));
}

#[test]
fn the_client_keeps_what_never_changes() {
    let forever = "public, max-age=31536000, immutable";
    assert_eq!(asset_cache("/_astro/a.js"), forever);
    assert_eq!(static_cache("/_astro/a.js"), forever);
    assert_eq!(asset_cache("/a.js"), "no-cache");
    assert_eq!(static_cache("/a.js"), "no-cache, must-revalidate");
}

#[test]
fn a_query_is_not_part_of_the_path() {
    let urls = ["/", "/app.js", "//a//b", "/a%3Fb", "/\u{e9}", "http://localhost:1430", "http://h/a/b", "x://u@h/p"];
    for url in urls {
        let path = request_path(url);
        for query in ["?", "?v=1", "?a?b", "#", "#top", "?v#top"] {
            assert_eq!(request_path(&format!("{}{}", url, query)), path);
        }
        if url.starts_with('/') {
            assert_eq!(path, url);
        }
    }
    assert_eq!(request_path("example.org"), "");
    assert_eq!(request_path("example.org?v=1"), "example.org?v=1");
    assert_eq!(request_path("*?v=1"), "*?v=1");
}
