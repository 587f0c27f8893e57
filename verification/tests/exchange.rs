use std::collections::HashMap;
use std::path::PathBuf;
use tauri_plugin_localhost::cache::{FileCache, Reply};
use tauri_plugin_localhost::exchange::{Action, Asset, Event, Site};
use tauri_plugin_localhost::path::Platform;
use tauri_plugin_localhost::{Builder, Request, Response};
use tauri_plugin_localhost::response::{asset_response, file_response, Answer, Outgoing};

/// A world of assets and files that counts what is read.
#[derive(Default)]
struct Fake {
    assets: HashMap<String, &'static str>,
    files: HashMap<PathBuf, &'static str>,
    links: HashMap<PathBuf, PathBuf>,
    log: Vec<String>,
}

impl Fake {
    fn perform(&mut self, action: Action) -> Option<Event> {
        match action {
            Action::Canonicalize(path) => {
                self.log.push(format!("canonical {}", path.display()));
                Some(Event::Canonical(self.links.get(&path).cloned()))
            }
            Action::FindAsset(path) => Some(Event::Asset(self.assets.get(&path).map(|text| Asset {
                bytes: text.as_bytes().to_vec(),
                mime_type: "text/x-asset".to_string(),
                csp_header: if *text == "guarded" { Some("default-src 'self'".to_string()) } else { None },
            }))),
            Action::CheckFile(path) => {
                self.log.push(format!("check {}", path.display()));
                Some(Event::Disk(Reply::IsFile(self.files.contains_key(&path))))
            }
            Action::ReadFile(path) => {
                self.log.push(format!("read {}", path.display()));
                let text = self.files.get(&path);
                Some(Event::Disk(Reply::Contents(text.map(|t| t.as_bytes().to_vec()))))
            }
            Action::Finish => None,
        }
    }

    fn answer(&mut self, site: &Site, cache: &mut FileCache, url: &str, encoding: &str) -> Answer {
        let headers = vec![("Accept-Encoding".to_string(), encoding.to_string())];
        let mut exchange = site.open(cache, url.to_string(), &headers);
        while let Some(event) = self.perform(site.action(&exchange)) {
            exchange = site.advance(cache, exchange, event);
        }
        exchange.into_answer().unwrap()
    }

    fn get(&mut self, site: &Site, cache: &mut FileCache, url: &str, encoding: &str) -> Outgoing {
        self.answer(site, cache, url, encoding).finish()
    }
}

fn site(roots: &[&str], static_root: Option<&str>) -> Site {
    Site {
        platform: Platform::current(),
        extension_roots: roots.iter().map(PathBuf::from).collect(),
        static_root: static_root.map(PathBuf::from),
    }
}

fn header<'a>(outgoing: &'a Outgoing, name: &str) -> Option<&'a str> {
    let mut found = outgoing.headers.iter().filter(|(n, _)| n == name);
    let value = found.next().map(|(_, v)| v.as_str());
    assert!(found.next().is_none());
    value
}

fn assert_not_found(outgoing: &Outgoing) {
    assert_eq!(outgoing.status, 404);
    assert_eq!(outgoing.body, b"404 Not Found");
    assert!(outgoing.headers.is_empty());
}

#[test]
fn an_embedded_asset_comes_first() {
    let mut world = Fake::default();
    world.assets.insert("/a.js".to_string(), "embedded");
    world.files.insert(PathBuf::from("/srv/a.js"), "disk");
    let mut cache = FileCache::new();
    let got = world.get(&site(&[], Some("/srv")), &mut cache, "/a.js?v=2", "br");
    assert_eq!(got.status, 200);
    assert_eq!(got.body, b"embedded");
    assert_eq!(header(&got, "Content-Type"), Some("text/x-asset"));
    assert_eq!(header(&got, "Cache-Control"), Some("no-cache"));
    assert_eq!(header(&got, "Access-Control-Allow-Origin"), Some("*"));
    assert_eq!(got.headers.len(), 3);
    assert!(world.log.is_empty());
}

#[test]
fn an_asset_brings_its_content_security_policy() {
    let mut world = Fake::default();
    world.assets.insert("/_astro/x.js".to_string(), "guarded");
    let got = world.get(&site(&[], None), &mut FileCache::new(), "/_astro/x.js", "");
    assert_eq!(header(&got, "Content-Security-Policy"), Some("default-src 'self'"));
    assert_eq!(header(&got, "Cache-Control"), Some("public, max-age=31536000, immutable"));
    assert_eq!(got.headers.len(), 4);
}

#[test]
fn a_static_file_is_served_from_disk() {
    let mut world = Fake::default();
    world.files.insert(PathBuf::from("/srv/index.html"), "<p>");
    let mut cache = FileCache::new();
    let got = world.get(&site(&[], Some("/srv")), &mut cache, "/", "gzip");
    assert_eq!(got.status, 200);
    assert_eq!(got.body, b"<p>");
    assert_eq!(header(&got, "Content-Type"), Some("text/html; charset=utf-8"));
    assert_eq!(header(&got, "Cache-Control"), Some("no-cache, must-revalidate"));
    assert_eq!(header(&got, "Access-Control-Allow-Origin"), Some("*"));
    assert_eq!(header(&got, "Cross-Origin-Resource-Policy"), Some("cross-origin"));
    assert_eq!(header(&got, "Content-Encoding"), None);
    assert_eq!(header(&got, "Vary"), None);
    assert_eq!(world.log, ["read /srv/index.html"]);
}

#[test]
fn a_static_file_is_read_once() {
    let mut world = Fake::default();
    world.files.insert(PathBuf::from("/srv/_astro/a.js"), "plain");
    world.files.insert(PathBuf::from("/srv/_astro/a.js.br"), "small");
    let (site, mut cache) = (site(&[], Some("/srv")), FileCache::new());
    for encoding in ["br", "gzip", "br"] {
        let got = world.get(&site, &mut cache, "/_astro/a.js", encoding);
        assert_eq!(got.body, b"small");
        assert_eq!(header(&got, "Content-Type"), Some("application/javascript; charset=utf-8"));
        assert_eq!(header(&got, "Content-Encoding"), Some("br"));
        assert_eq!(header(&got, "Vary"), Some("Accept-Encoding"));
        assert_eq!(header(&got, "Cache-Control"), Some("public, max-age=31536000, immutable"));
    }
    assert_eq!(world.log, ["check /srv/_astro/a.js.br", "read /srv/_astro/a.js.br"]);
    world.files.clear();
    assert_eq!(world.get(&site, &mut cache, "/_astro/a.js", "").body, b"small");
}

#[test]
fn a_static_file_that_is_missing_is_not_found() {
    let mut world = Fake::default();
    let (site, mut cache) = (site(&[], Some("/srv")), FileCache::new());
    assert_not_found(&world.get(&site, &mut cache, "/a.js", "br"));
    assert_eq!(world.log, ["check /srv/a.js.br", "read /srv/a.js"]);
}

#[test]
fn without_a_static_root_nothing_is_there() {
    let mut world = Fake::default();
    assert_not_found(&world.get(&site(&["/ext"], None), &mut FileCache::new(), "/a.js", "br"));
    assert!(world.log.is_empty());
}

#[test]
fn an_extension_file_is_served_from_below_a_root() {
    let mut world = Fake::default();
    world.links.insert(PathBuf::from("/link/icon.svg"), PathBuf::from("/ext/b/icon.svg"));
    world.links.insert(PathBuf::from("/roots/b"), PathBuf::from("/ext/b"));
    world.files.insert(PathBuf::from("/ext/b/icon.svg"), "<svg>");
    let site = site(&["/roots/a", "/roots/b", "/roots/c"], Some("/srv"));
    let mut cache = FileCache::new();
    let got = world.get(&site, &mut cache, "/Extension/link/icon.svg", "br");
    assert_eq!(got.body, b"<svg>");
    assert_eq!(header(&got, "Content-Type"), Some("image/svg+xml"));
    assert_eq!(header(&got, "Cache-Control"), Some("no-cache"));
    assert_eq!(header(&got, "Content-Encoding"), None);
    assert_eq!(
        world.log,
        [
            "canonical /link/icon.svg",
            "canonical /roots/a",
            "canonical /roots/b",
            "check /ext/b/icon.svg.br",
            "read /ext/b/icon.svg",
        ]
    );
}

#[test]
fn an_extension_file_outside_the_roots_is_not_found() {
    let mut world = Fake::default();
    world.assets.insert("/Extension/etc/passwd".to_string(), "embedded");
    world.links.insert(PathBuf::from("/etc/passwd"), PathBuf::from("/etc/passwd"));
    world.links.insert(PathBuf::from("/ext"), PathBuf::from("/ext"));
    world.files.insert(PathBuf::from("/etc/passwd"), "root");
    let (site, mut cache) = (site(&["/ext"], Some("/")), FileCache::new());
    assert_not_found(&world.get(&site, &mut cache, "/Extension/etc/passwd", ""));
    assert_not_found(&world.get(&site, &mut cache, "/Extension/ext/../etc/passwd", ""));
    assert_not_found(&world.get(&site, &mut cache, "/Extension/gone", ""));
    assert_eq!(world.log, ["canonical /etc/passwd", "canonical /ext", "canonical /gone"]);
}

#[test]
fn without_a_root_no_extension_file_is_found() {
    let mut world = Fake::default();
    assert_not_found(&world.get(&site(&[], Some("/srv")), &mut FileCache::new(), "/Extension/a", ""));
    assert!(world.log.is_empty());
}

#[test]
fn a_hook_sees_the_url_and_has_the_last_word() {
    let server = Builder::new(9)
        .static_root("/srv")
        .on_request(|_: &Request, response: &mut Response| response.add_header("X-First", "1"))
        .on_request(|request: &Request, response: &mut Response| {
            response.add_header("X-Url", request.url());
            response.add_header("Cache-Control", "no-store");
            response.add_header(String::from("X-Hook"), String::from("1"));
            response.add_header("X-Name", "ünsent");
            response.add_header("X-Näme", "unsent");
        })
        .build();
    let mut world = Fake::default();
    world.files.insert(PathBuf::from("/srv/a.txt"), "text");
    let answer = world.answer(&server.site, &mut FileCache::new(), "/a.txt?q", "");
    let got = answer.shown_to(&server.on_request).finish();
    assert_eq!(got.status, 200);
    assert_eq!(got.body, b"text");
    assert_eq!(header(&got, "X-Url"), Some("/a.txt?q"));
    assert_eq!(header(&got, "Cache-Control"), Some("no-store"));
    assert_eq!(header(&got, "X-Hook"), Some("1"));
    assert_eq!(header(&got, "X-First"), None);
    assert_eq!(header(&got, "Content-Type"), Some("text/plain; charset=utf-8"));
    assert_eq!(header(&got, "X-Name"), None);
    assert_eq!(got.headers.len(), 6);
    let missing = world.answer(&server.site, &mut FileCache::new(), "/b.txt", "");
    assert_not_found(&missing.shown_to(&server.on_request).finish());
}

#[test]
fn without_a_hook_the_answer_is_sent_as_it_is() {
    let mut world = Fake::default();
    world.files.insert(PathBuf::from("/srv/a.txt"), "text");
    let answer = world.answer(&site(&[], Some("/srv")), &mut FileCache::new(), "/a.txt", "");
    let got = answer.shown_to(&None::<fn(&Request, &mut Response)>).finish();
    assert_eq!(got.body, b"text");
    assert_eq!(got.headers.len(), 4);
}

#[test]
fn a_hook_sees_the_type_of_an_embedded_asset() {
    let mut world = Fake::default();
    world.assets.insert("/a".to_string(), "embedded");
    match world.answer(&site(&[], None), &mut FileCache::new(), "/a", "") {
        Answer::Content { request, .. } => assert_eq!(request.url(), "text/x-asset"),
        Answer::NotFound => panic!("nothing was found"),
    }
}

#[test]
fn an_event_that_was_not_waited_for_changes_nothing() {
    let (site, mut cache) = (site(&[], Some("/srv")), FileCache::new());
    let exchange = site.open_at(&cache, "/a".to_string(), "/a".to_string(), true);
    let exchange = site.advance(&mut cache, exchange, Event::Canonical(None));
    assert!(matches!(site.action(&exchange), Action::FindAsset(path) if path == "/a"));
    let exchange = site.advance(&mut cache, exchange, Event::Asset(None));
    let exchange = site.advance(&mut cache, exchange, Event::Asset(None));
    assert!(matches!(site.action(&exchange), Action::CheckFile(path) if path == PathBuf::from("/srv/a.br")));
    assert!(exchange.into_answer().is_none());
}

#[test]
fn extra_headers_replace_the_usual_ones() {
    let response = file_response("text/css", true, "no-cache", &[("Vary", "*"), ("X", "1"), ("X", "2")]);
    let mut world = Fake::default();
    world.assets.insert("/a".to_string(), "embedded");
    let answer = match world.answer(&site(&[], None), &mut FileCache::new(), "/a", "") {
        Answer::Content { request, body, .. } => Answer::Content { request, response, body },
        Answer::NotFound => panic!("nothing was found"),
    };
    let got = answer.finish();
    assert_eq!(header(&got, "Content-Encoding"), Some("br"));
    assert_eq!(header(&got, "Vary"), Some("*"));
    assert_eq!(header(&got, "X"), Some("2"));
    assert_eq!(header(&got, "Content-Type"), Some("text/css"));
    assert_eq!(got.headers.len(), 7);
}

#[test]
fn a_policy_is_sent_only_where_there_is_one() {
    let mut world = Fake::default();
    world.assets.insert("/a".to_string(), "embedded");
    let found = world.answer(&site(&[], None), &mut FileCache::new(), "/a", "");
    let response = asset_response("text/html", "no-cache", Some("img-src *".to_string()));
    let answer = match found {
        Answer::Content { request, body, .. } => Answer::Content { request, response, body },
        Answer::NotFound => panic!("nothing was found"),
    };
    let got = answer.finish();
    assert_eq!(header(&got, "Content-Security-Policy"), Some("img-src *"));
    assert_eq!(header(&got, "Content-Type"), Some("text/html"));
}

#[test]
fn a_query_has_no_influence_on_what_is_sent() {
    let mut world = Fake::default();
    world.assets.insert("/e.js".to_string(), "embedded");
    world.links.insert(PathBuf::from("/ext/i.svg"), PathBuf::from("/ext/i.svg"));
    world.links.insert(PathBuf::from("/ext"), PathBuf::from("/ext"));
    world.files.insert(PathBuf::from("/ext/i.svg"), "<svg>");
    world.files.insert(PathBuf::from("/srv/index.html"), "<p>");
    world.files.insert(PathBuf::from("/srv/_astro/a.js"), "chunk");
    let site = site(&["/ext"], Some("/srv"));
    for url in ["/", "/e.js", "/_astro/a.js", "/none", "/Extension/ext/i.svg", "/Extension/none"] {
        let plain = world.get(&site, &mut FileCache::new(), url, "");
        for query in ["?v=1", "?x-0123abcd", "#top"] {
            let got = world.get(&site, &mut FileCache::new(), &format!("{}{}", url, query), "");
            assert_eq!(got.status, plain.status);
            assert_eq!(got.body, plain.body);
            assert_eq!(got.headers, plain.headers);
        }
    }
}

#[test]
fn an_empty_static_root_serves_relative_paths() {
    let mut world = Fake::default();
    world.files.insert(PathBuf::from("a.txt"), "here");
    let got = world.get(&site(&[], Some("")), &mut FileCache::new(), "/a.txt", "");
    assert_eq!(got.body, b"here");
}
