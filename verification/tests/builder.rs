use std::path::PathBuf;
use tauri_plugin_localhost::{Builder, Request, Response};

#[test]
fn the_host_is_localhost_unless_it_is_set() {
    assert_eq!(Builder::new(1430).build().address, "localhost:1430");
    assert_eq!(Builder::new(0).build().address, "localhost:0");
    assert_eq!(Builder::new(65535).host("127.0.0.1").build().address, "127.0.0.1:65535");
    assert_eq!(Builder::new(80).host("a").host(String::from("b")).build().address, "b:80");
}

#[test]
fn nothing_is_served_unless_it_is_set() {
    let server = Builder::new(9).build();
    assert!(server.on_request.is_none());
    assert!(server.site.extension_roots.is_empty());
    assert!(server.site.static_root.is_none());
}

#[test]
fn roots_are_kept_in_order() {
    let server = Builder::new(9)
        .extension_root("/srv/a")
        .static_root("/srv/old")
        .extension_root(PathBuf::from("/srv/b"))
        .static_root(String::from("/srv/site"))
        .build();
    assert_eq!(server.site.extension_roots, [PathBuf::from("/srv/a"), PathBuf::from("/srv/b")]);
    assert_eq!(server.site.static_root, Some(PathBuf::from("/srv/site")));
}

#[test]
fn the_last_hook_is_kept() {
    let server = Builder::new(9)
        .host("h")
        .extension_root("/srv/a")
        .on_request(|_: &Request, response: &mut Response| response.add_header("X", "1"))
        .on_request(|_: &Request, response: &mut Response| response.add_header("X", "2"))
        .static_root("/srv/site")
        .build();
    assert!(server.on_request.is_some());
    assert_eq!(server.address, "h:9");
    assert_eq!(server.site.extension_roots.len(), 1);
    assert_eq!(server.site.static_root, Some(PathBuf::from("/srv/site")));
}
