use std::path::PathBuf;
use tauri_plugin_localhost::mime::{mime_for, mime_from_components, mime_from_extension};
use tauri_plugin_localhost::path::{PathComponent, Platform};

fn mime(path: &str) -> &'static str {
    mime_from_extension(Platform::current(), &PathBuf::from(path))
}

#[test]
fn each_extension_has_its_type() {
    let table = [
        ("js", "application/javascript; charset=utf-8"),
        ("mjs", "application/javascript; charset=utf-8"),
        ("cjs", "application/javascript; charset=utf-8"),
        ("css", "text/css; charset=utf-8"),
        ("json", "application/json; charset=utf-8"),
        ("map", "application/json; charset=utf-8"),
        ("html", "text/html; charset=utf-8"),
        ("htm", "text/html; charset=utf-8"),
        ("svg", "image/svg+xml"),
        ("wasm", "application/wasm"),
        ("png", "image/png"),
        ("jpg", "image/jpeg"),
        ("jpeg", "image/jpeg"),
        ("gif", "image/gif"),
        ("webp", "image/webp"),
        ("ttf", "font/ttf"),
        ("otf", "font/otf"),
        ("woff", "font/woff"),
        ("woff2", "font/woff2"),
        ("eot", "application/vnd.ms-fontobject"),
        ("ico", "image/x-icon"),
        ("xml", "application/xml; charset=utf-8"),
        ("txt", "text/plain; charset=utf-8"),
        ("toml", "application/toml; charset=utf-8"),
        ("zip", "application/octet-stream"),
        ("", "application/octet-stream"),
    ];
    for (extension, expected) in table {
        assert_eq!(mime(&format!("/srv/site/file.{}", extension)), expected);
        assert_eq!(mime_for(Some(extension.as_bytes().to_vec())), expected);
    }
    assert_eq!(mime_for(None), "application/octet-stream");
}

#[test]
fn the_case_of_the_extension_does_not_matter() {
    assert_eq!(mime("/srv/LOGO.PNG"), "image/png");
    assert_eq!(mime("/srv/logo.Png"), "image/png");
    assert_eq!(mime_for(Some(b"WoFf2".to_vec())), "font/woff2");
}

#[test]
fn a_compressed_file_has_the_type_of_its_content() {
    assert_eq!(mime("app.js.br"), "application/javascript; charset=utf-8");
    assert_eq!(mime("/srv/a/style.css.br"), "text/css; charset=utf-8");
    assert_eq!(mime("archive.br"), "application/octet-stream");
    assert_eq!(mime("app.js.br.br"), "application/octet-stream");
    assert_eq!(mime("app.js.BR"), "application/octet-stream");
}

#[test]
fn names_without_an_extension_are_octets() {
    assert_eq!(mime("/srv/LICENSE"), "application/octet-stream");
    assert_eq!(mime("/srv/.html"), "application/octet-stream");
    assert_eq!(mime("/srv/.br"), "application/octet-stream");
    assert_eq!(mime("/srv/js"), "application/octet-stream");
    assert_eq!(mime("/"), "application/octet-stream");
    assert_eq!(mime(""), "application/octet-stream");
    assert_eq!(mime("/srv/page.html/.."), "application/octet-stream");
}

#[test]
fn the_last_name_of_the_path_decides() {
    assert_eq!(mime("/srv/site.js/page.html"), "text/html; charset=utf-8");
    assert_eq!(mime("/srv/page.html/"), "text/html; charset=utf-8");
    assert_eq!(mime("/srv/page.html/."), "text/html; charset=utf-8");
    assert_eq!(mime("/srv/page.html/..br"), "application/octet-stream");
    assert_eq!(mime("/srv/page.html/...br"), "application/octet-stream");
    assert_eq!(mime("/srv/app.js.br/"), "application/javascript; charset=utf-8");
}

#[test]
fn a_dot_that_is_left_of_a_compressed_name_stands_for_the_directory() {
    assert_eq!(mime("d.css/..br/"), "text/css; charset=utf-8");
    assert_eq!(mime("/srv/page.html/..br//"), "text/html; charset=utf-8");
    assert_eq!(mime("d.css/...br/"), "application/octet-stream");
}

#[test]
fn the_types_agree_with_the_standard_path_functions() {
    let paths = [
        "a.js", "a.js.br", "a.b.c.css", ".hidden", ".hidden.txt", "x.", "x..br", "..br", "...br",
        "dir.png/..br", "dir.png/.br", "dir/a.svg/", "./a.gif", "../a.ico", "..", ".", "", "/", "a/..",
        "a.JS/..br", "a.tar.br", "d.css/..br/", "dir.png/..br//", "d.css/..br/.", "d.css/..br/./",
        "d.css/...br/", "d.css/...br//", "..br/", "...br/", "a.js.br/", "a.js.br//", "a.js.br/.",
        "a.js.br/./", "x..br/", ".hidden.txt.br/", "d.css/.br/", "d.css/....br/", "/..br/", "./..br/",
    ];
    for path in paths {
        let path = PathBuf::from(path);
        let effective = if path.extension().and_then(|e| e.to_str()) == Some("br") {
            path.with_extension("")
        } else {
            path.clone()
        };
        let extension = effective.extension().map(|e| e.to_str().unwrap().as_bytes().to_vec());
        assert_eq!(mime_from_extension(Platform::current(), &path), mime_for(extension));
    }
}

#[test]
fn components_decide_without_a_path() {
    let path = vec![
        PathComponent::RootDir,
        PathComponent::Normal(b"srv".to_vec()),
        PathComponent::Normal(b"app.wasm".to_vec()),
    ];
    assert_eq!(mime_from_components(&path), "application/wasm");
    let path = vec![PathComponent::Normal(b"app.wasm.br".to_vec())];
    assert_eq!(mime_from_components(&path), "application/octet-stream");
    let path = vec![PathComponent::Normal(b"a.js".to_vec()), PathComponent::ParentDir];
    assert_eq!(mime_from_components(&path), "application/octet-stream");
}
