use std::path::PathBuf;
use tauri_plugin_localhost::extension::{
    absolute_text, advance_resolve, begin_resolve, extension_candidate, is_extension_request, Resolve,
};
use tauri_plugin_localhost::path::{descends, same_components, starts_with, PathComponent, Platform};

fn candidate(path: &str) -> Option<PathBuf> {
    extension_candidate(Platform::current(), path)
}

fn name(text: &str) -> PathComponent {
    PathComponent::Normal(text.as_bytes().to_vec())
}

#[test]
fn only_the_extension_prefix_counts() {
    assert!(is_extension_request("/Extension/a"));
    assert!(is_extension_request("/Extension/"));
    assert!(!is_extension_request("/Extension"));
    assert!(!is_extension_request("/extension/a"));
    assert!(!is_extension_request("Extension/a"));
    assert_eq!(candidate("/app.js"), None);
}

#[test]
fn the_slash_of_the_path_is_put_back() {
    assert_eq!(absolute_text(Platform::current(), "srv/a.svg"), "/srv/a.svg");
    assert_eq!(absolute_text(Platform::current(), ""), "/");
    assert_eq!(candidate("/Extension/srv/a.svg"), Some(PathBuf::from("/srv/a.svg")));
    assert_eq!(candidate("/Extension/srv%2Fa%20b.svg"), Some(PathBuf::from("/srv/a b.svg")));
    assert_eq!(candidate("/Extension//srv/./a.svg"), Some(PathBuf::from("/srv/a.svg")));
    assert_eq!(candidate("/Extension/"), Some(PathBuf::from("/")));
}

#[test]
fn parent_directories_are_refused() {
    assert_eq!(candidate("/Extension/srv/../etc/passwd"), None);
    assert_eq!(candidate("/Extension/.."), None);
    assert_eq!(candidate("/Extension/%2e%2e/etc"), None);
    assert_eq!(candidate("/Extension/srv/..%2fetc"), None);
    assert_eq!(candidate("/Extension/srv/...").is_some(), true);
    assert_eq!(candidate("/Extension/srv/a..b").is_some(), true);
}

#[test]
fn a_file_below_the_second_root_is_found() {
    let platform = Platform::current();
    let step = begin_resolve(platform, "/Extension/link/a.svg");
    assert!(matches!(&step, Resolve::Candidate(p) if *p == PathBuf::from("/link/a.svg")));
    let step = advance_resolve(platform, 2, step, Some(PathBuf::from("/srv/ext/a.svg")));
    assert!(matches!(&step, Resolve::Root { file, next: 0 } if *file == PathBuf::from("/srv/ext/a.svg")));
    let step = advance_resolve(platform, 2, step, Some(PathBuf::from("/srv/ex")));
    assert!(matches!(&step, Resolve::Root { next: 1, .. }));
    let step = advance_resolve(platform, 2, step, Some(PathBuf::from("/srv/ext")));
    assert!(matches!(&step, Resolve::Found(p) if *p == PathBuf::from("/srv/ext/a.svg")));
}

#[test]
fn a_file_below_no_root_is_refused() {
    let platform = Platform::current();
    let step = begin_resolve(platform, "/Extension/etc/passwd");
    let step = advance_resolve(platform, 2, step, Some(PathBuf::from("/etc/passwd")));
    let step = advance_resolve(platform, 2, step, None);
    let step = advance_resolve(platform, 2, step, Some(PathBuf::from("/srv")));
    assert!(matches!(step, Resolve::Refused));
}

#[test]
fn a_file_that_is_not_there_is_refused() {
    let platform = Platform::current();
    let step = begin_resolve(platform, "/Extension/srv/a.svg");
    assert!(matches!(advance_resolve(platform, 2, step, None), Resolve::Refused));
    let step = begin_resolve(platform, "/Extension/srv/a.svg");
    let file = Some(PathBuf::from("/srv/a.svg"));
    assert!(matches!(advance_resolve(platform, 0, step, file), Resolve::Refused));
    assert!(matches!(begin_resolve(platform, "/Extension/../a"), Resolve::Refused));
}

#[test]
fn whole_components_are_compared() {
    let path = vec![PathComponent::RootDir, name("srv"), name("ext"), name("a.svg")];
    let base = vec![PathComponent::RootDir, name("srv"), name("ext")];
    let other = vec![PathComponent::RootDir, name("srv"), name("ex")];
    assert!(starts_with(&path, &base));
    assert!(starts_with(&path, &vec![]));
    assert!(starts_with(&path, &path));
    assert!(!starts_with(&path, &other));
    assert!(!starts_with(&base, &path));
    assert!(same_components(&base, &base));
    assert!(!same_components(&base, &other));
    assert!(!same_components(&base, &path));
    let drive = vec![PathComponent::Prefix("Disk(67)".to_string()), PathComponent::RootDir];
    assert!(same_components(&drive, &drive));
    assert!(!starts_with(&drive, &vec![PathComponent::Prefix("Disk(68)".to_string())]));
}

#[test]
fn only_upward_components_count_as_such() {
    assert!(descends(&vec![]));
    assert!(descends(&vec![PathComponent::Prefix("C:".to_string()), PathComponent::RootDir, name("a")]));
    assert!(!descends(&vec![PathComponent::RootDir, PathComponent::ParentDir, name("a")]));
    assert!(!descends(&vec![PathComponent::CurDir, name("a")]));
}
