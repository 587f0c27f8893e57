use std::path::PathBuf;
use tauri_plugin_localhost::cache::{
    advance_load, begin_load, pending_path, CachedFile, FileCache, Load, Reply,
};
use tauri_plugin_localhost::path::{PathComponent, Platform};

fn key(names: &[&str]) -> Vec<PathComponent> {
    names.iter().map(|n| PathComponent::Normal(n.as_bytes().to_vec())).collect()
}

fn contents(text: &str) -> Reply {
    Reply::Contents(Some(text.as_bytes().to_vec()))
}

#[test]
fn an_empty_cache_holds_nothing() {
    assert!(FileCache::new().get(&key(&["a"])).is_none());
}

#[test]
fn the_newest_file_at_a_path_is_found() {
    let mut cache = FileCache::new();
    for (name, bytes) in [("a", "one"), ("b", "two"), ("a", "three")] {
        let file = CachedFile { bytes: bytes.as_bytes().to_vec(), mime: "text/plain", brotli: false };
        cache.insert(key(&[name]), file);
    }
    assert_eq!(cache.get(&key(&["a"])).unwrap().bytes, b"three");
    assert_eq!(cache.get(&key(&["b"])).unwrap().bytes, b"two");
    assert!(cache.get(&key(&["a", "b"])).is_none());
}

#[test]
fn a_plain_load_reads_the_file() {
    let platform = Platform::current();
    let path = PathBuf::from("/srv/app.js");
    let mut cache = FileCache::new();
    let load = begin_load(platform, &cache, &path, false);
    assert!(matches!(load, Load::ReadFile));
    assert_eq!(pending_path(&load, &path), Some(path.clone()));
    let load = advance_load(platform, &mut cache, &path, load, contents("let a;"));
    assert!(matches!(&load, Load::Loaded(f)
        if f.bytes == b"let a;" && f.mime == "application/javascript; charset=utf-8" && !f.brotli));
    assert_eq!(pending_path(&load, &path), None);
}

#[test]
fn a_compressed_sibling_is_preferred() {
    let platform = Platform::current();
    let path = PathBuf::from("/srv/app.js");
    let mut cache = FileCache::new();
    let load = begin_load(platform, &cache, &path, true);
    assert!(matches!(load, Load::CheckSibling));
    assert_eq!(pending_path(&load, &path), Some(PathBuf::from("/srv/app.js.br")));
    let load = advance_load(platform, &mut cache, &path, load, Reply::IsFile(true));
    assert!(matches!(load, Load::ReadSibling));
    assert_eq!(pending_path(&load, &path), Some(PathBuf::from("/srv/app.js.br")));
    let load = advance_load(platform, &mut cache, &path, load, contents("compressed"));
    assert!(matches!(&load, Load::Loaded(f)
        if f.bytes == b"compressed" && f.mime == "application/javascript; charset=utf-8" && f.brotli));
}

#[test]
fn the_file_itself_is_read_where_the_sibling_cannot_be() {
    let platform = Platform::current();
    let path = PathBuf::from("/srv/app.js");
    let mut cache = FileCache::new();
    let load = advance_load(platform, &mut cache, &path, Load::CheckSibling, Reply::IsFile(false));
    assert!(matches!(load, Load::ReadFile));
    let load = advance_load(platform, &mut cache, &path, Load::ReadSibling, Reply::Contents(None));
    assert!(matches!(load, Load::ReadFile));
    let load = advance_load(platform, &mut cache, &path, load, Reply::Contents(None));
    assert!(matches!(load, Load::Missing));
    assert!(matches!(begin_load(platform, &cache, &path, false), Load::ReadFile));
}

#[test]
fn a_loaded_file_is_not_read_again() {
    let platform = Platform::current();
    let path = PathBuf::from("/srv/app.js");
    let mut cache = FileCache::new();
    advance_load(platform, &mut cache, &path, Load::ReadSibling, contents("compressed"));
    for brotli in [true, false] {
        let load = begin_load(platform, &cache, &path, brotli);
        assert!(matches!(&load, Load::Loaded(f) if f.bytes == b"compressed" && f.brotli));
    }
    let spelled = PathBuf::from("/srv//./app.js/");
    assert!(matches!(begin_load(platform, &cache, &spelled, true), Load::Loaded(_)));
    let other = PathBuf::from("/srv/../srv/app.js");
    assert!(matches!(begin_load(platform, &cache, &other, false), Load::ReadFile));
}

#[test]
fn a_reply_that_was_not_asked_for_changes_nothing() {
    let platform = Platform::current();
    let path = PathBuf::from("/srv/app.js");
    let mut cache = FileCache::new();
    let load = advance_load(platform, &mut cache, &path, Load::CheckSibling, contents("x"));
    assert!(matches!(load, Load::CheckSibling));
    let load = advance_load(platform, &mut cache, &path, Load::ReadFile, Reply::IsFile(true));
    assert!(matches!(load, Load::ReadFile));
    let load = advance_load(platform, &mut cache, &path, Load::Missing, contents("x"));
    assert!(matches!(load, Load::Missing));
    assert!(matches!(begin_load(platform, &cache, &path, false), Load::ReadFile));
}
