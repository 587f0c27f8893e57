//! What a client gets, from the request path to the headers and the body of the answer.

use std::path::PathBuf;
use vstd::prelude::*;

use crate::cache::{
    loaded, what_was_read_is_brought_and_kept, CacheView, CachedFile, CachedView, Load, LoadView, Reply,
    ReplyView,
};
use crate::decode::url_decoded;
use crate::exchange::{
    advanced, cache_then, lemma_first_byte, served, served_file, static_path, Action, ActionView, Asset,
    AssetView, Event, EventView, ExchangeView, Site, SiteView, StageView, World,
};
use crate::extension::{
    extension_path_names_what_follows, files_below_a_root_are_resolved,
    files_below_no_root_are_refused, is_extension_path, named_file, resolved, Resolve,
    ResolveView,
};
use crate::mime::{lemma_br_bytes, mime_of, text_bytes};
use crate::path::{
    components_of, path_bytes, relative_paths_follow_the_base, windows_join, ComponentView, Platform,
};
use crate::response::{
    asset_headers_in_full, compression_is_announced, file_headers_in_full, Answer, AnswerView,
};
use crate::route::{asset_cache_control, static_cache_control, static_file_is_named_by_the_path};

verus! {

/// The answer has these bytes for its body and these headers, and no other.
pub open spec fn is_file_answer(
    answer: AnswerView,
    url: Seq<char>,
    file: CachedView,
    cache_control: Seq<char>,
) -> bool {
    &&& answer matches AnswerView::Content { url: shown, headers, body }
    &&& shown == url
    &&& body == file.bytes
    &&& headers.contains_pair("Content-Type"@, file.mime)
    &&& headers.contains_pair("Cache-Control"@, cache_control)
    &&& headers.contains_pair("Access-Control-Allow-Origin"@, "*"@)
    &&& headers.contains_pair("Cross-Origin-Resource-Policy"@, "cross-origin"@)
    &&& file.brotli ==> headers.contains_pair("Content-Encoding"@, "br"@)
        && headers.contains_pair("Vary"@, "Accept-Encoding"@)
    &&& forall|name: Seq<char>| #[trigger]
        headers.contains_key(name) ==> {
            ||| name == "Content-Type"@
            ||| name == "Cache-Control"@
            ||| name == "Access-Control-Allow-Origin"@
            ||| name == "Cross-Origin-Resource-Policy"@
            ||| file.brotli && (name == "Content-Encoding"@ || name == "Vary"@)
        }
}

/// The outcome is what a request for this file ends with. What is in the cache is answered
/// from there. Otherwise a client that takes Brotli gets what the file with `.br` behind
/// its path holds, where that can be read, and any other what the file itself holds; with
/// the type of the file either way, and from then on it is in the cache. Where nothing can
/// be read, nothing is there.
pub open spec fn ends_with_file(
    world: World,
    platform: Platform,
    cache: CacheView,
    url: Seq<char>,
    brotli: bool,
    file: Seq<u8>,
    cache_control: Seq<char>,
    outcome: (AnswerView, CacheView),
) -> bool {
    let (answer, kept) = outcome;
    let key = components_of(platform, file);
    let compressed = file + seq![0x2eu8, 0x62u8, 0x72u8];
    let plain = (world.disk.contents)(file);
    if cache.contains_key(key) {
        is_file_answer(answer, url, cache[key], cache_control) && kept == cache
    } else if brotli && (world.disk.is_file)(compressed) && (world.disk.contents)(
        compressed,
    ) is Some {
        let found = CachedView {
            bytes: (world.disk.contents)(compressed)->0,
            mime: mime_of(platform, file),
            brotli: true,
        };
        is_file_answer(answer, url, found, cache_control) && kept == cache.insert(key, found)
    } else if plain is Some {
        let found = CachedView {
            bytes: plain->0,
            mime: mime_of(platform, file),
            brotli: false,
        };
        is_file_answer(answer, url, found, cache_control) && kept == cache.insert(key, found)
    } else {
        answer is NotFound && kept == cache
    }
}

/// Every extension's file that lies below a registered root, at any depth, is served: the
/// one that the path names behind `/Extension/`, in its canonical form, with a policy that
/// makes the client ask again.
pub proof fn extension_files_are_served(
    world: World,
    site: SiteView,
    cache: CacheView,
    url: Seq<char>,
    rest: Seq<char>,
    brotli: bool,
    file: Seq<u8>,
    i: int,
)
    requires
        ({
            let decoded = url_decoded(rest);
            let named = text_bytes(
                if site.platform.is_windows() && decoded.len() > 1 && decoded[1] == ':' {
                    decoded
                } else {
                    seq!['/'] + decoded
                },
            );
            &&& !components_of(site.platform, named).contains(ComponentView::CurDir)
            &&& !components_of(site.platform, named).contains(ComponentView::ParentDir)
            &&& (world.canonical)(named) == Some(file)
        }),
        0 <= i < site.extension_roots.len(),
        (world.canonical)(site.extension_roots[i]) is Some,
        components_of(
            site.platform,
            (world.canonical)(site.extension_roots[i])->0,
        ).is_prefix_of(components_of(site.platform, file)),
    ensures
        ends_with_file(
            world,
            site.platform,
            cache,
            url,
            brotli,
            file,
            "no-cache"@,
            served(world, site, cache, url, "/Extension/"@ + rest, brotli),
        ),
{
    let path = "/Extension/"@ + rest;
    extension_path_names_what_follows(site.platform, rest);
    let named = components_of(
        site.platform,
        text_bytes(named_file(site.platform, path)),
    );
    assert forall|j: int| 0 <= j < named.len() implies !(#[trigger] named[j] is CurDir) && !(
    named[j] is ParentDir) by {
        assert(named.contains(named[j]));
    }
    files_below_a_root_are_resolved(
        site.platform,
        site.extension_roots,
        world.canonical,
        path,
        file,
        i,
    );
    lemma_served_file(world, site, cache, url, brotli, file, "no-cache"@);
}

/// A request for an extension's file is answered with nothing where the file lies below no
/// registered root, where its path leads upwards and where it has no canonical path.
/// Embedded assets and the static root do not matter then, and the cache stays as it is.
pub proof fn extension_files_outside_the_roots_are_not_served(
    world: World,
    site: SiteView,
    cache: CacheView,
    url: Seq<char>,
    rest: Seq<char>,
    brotli: bool,
)
    requires
        ({
            let decoded = url_decoded(rest);
            let named = text_bytes(
                if site.platform.is_windows() && decoded.len() > 1 && decoded[1] == ':' {
                    decoded
                } else {
                    seq!['/'] + decoded
                },
            );
            ||| components_of(site.platform, named).contains(ComponentView::CurDir)
            ||| components_of(site.platform, named).contains(ComponentView::ParentDir)
            ||| (world.canonical)(named) is None
            ||| forall|i: int|
                0 <= i < site.extension_roots.len() ==> (world.canonical)(
                    #[trigger] site.extension_roots[i],
                ) is None || !components_of(
                    site.platform,
                    (world.canonical)(site.extension_roots[i])->0,
                ).is_prefix_of(components_of(site.platform, (world.canonical)(named)->0))
        }),
    ensures
        served(world, site, cache, url, "/Extension/"@ + rest, brotli) == (
            AnswerView::NotFound,
            cache,
        ),
{
    let path = "/Extension/"@ + rest;
    extension_path_names_what_follows(site.platform, rest);
    files_below_no_root_are_refused(site.platform, site.extension_roots, world.canonical, path);
}

/// An embedded asset at the path is served as it is: its bytes, its type, its policy where
/// it has one, and no other header than those of every asset. Neither the disk nor the
/// cache matters, and the cache stays as it is.
pub proof fn assets_are_served_whole(
    world: World,
    site: SiteView,
    cache: CacheView,
    url: Seq<char>,
    path: Seq<char>,
    brotli: bool,
    asset: AssetView,
)
    requires
        !"/Extension/"@.is_prefix_of(path),
        (world.asset)(path) == Some(asset),
    ensures
        ({
            let (answer, kept) = served(world, site, cache, url, path, brotli);
            &&& kept == cache
            &&& answer matches AnswerView::Content { url: shown, headers, body }
            &&& shown == asset.mime_type
            &&& body == asset.bytes
            &&& headers.contains_pair("Content-Type"@, asset.mime_type)
            &&& headers.contains_pair("Cache-Control"@, asset_cache_control(path))
            &&& headers.contains_pair("Access-Control-Allow-Origin"@, "*"@)
            &&& asset.csp_header matches Some(policy) ==> headers.contains_pair(
                "Content-Security-Policy"@,
                policy,
            )
            &&& forall|name: Seq<char>| #[trigger]
                headers.contains_key(name) ==> {
                    ||| name == "Content-Type"@
                    ||| name == "Cache-Control"@
                    ||| name == "Access-Control-Allow-Origin"@
                    ||| asset.csp_header is Some && name == "Content-Security-Policy"@
                }
        }),
{
    asset_headers_in_full(asset.mime_type, asset_cache_control(path), asset.csp_header);
}

/// Where no asset is embedded at the path, the file below the static root is served that
/// stands between the slashes that the path starts with and its query or fragment, or
/// `index.html` where nothing stands there.
pub proof fn static_files_are_served(
    world: World,
    site: SiteView,
    cache: CacheView,
    url: Seq<char>,
    slashes: Seq<char>,
    name: Seq<char>,
    query: Seq<char>,
    brotli: bool,
    root: Seq<u8>,
)
    requires
        forall|i: int| 0 <= i < slashes.len() ==> #[trigger] slashes[i] == '/',
        forall|i: int|
            0 <= i < name.len() ==> #[trigger] name[i] != '?' && name[i] != '#',
        name.len() > 0 ==> name[0] != '/',
        query.len() > 0 ==> query[0] == '?' || query[0] == '#',
        !"/Extension/"@.is_prefix_of(slashes + name + query),
        (world.asset)(slashes + name + query) is None,
        site.static_root == Some(root),
    ensures
        ({
            let path = slashes + name + query;
            let below = text_bytes(
                if name.len() > 0 {
                    name
                } else {
                    "index.html"@
                },
            );
            let file = if site.platform.is_windows() {
                windows_join(root, below)
            } else if root.len() == 0 || root.last() == 0x2f {
                root + below
            } else {
                root.push(0x2f) + below
            };
            ends_with_file(
                world,
                site.platform,
                cache,
                url,
                brotli,
                file,
                static_cache_control(path),
                served(world, site, cache, url, path, brotli),
            )
        }),
{
    let path = slashes + name + query;
    static_file_is_named_by_the_path(slashes, name, query);
    reveal_strlit("index.html");
    let text = if name.len() > 0 {
        name
    } else {
        "index.html"@
    };
    let below = text_bytes(text);
    lemma_first_byte(text);
    if site.platform.is_unix() {
        relative_paths_follow_the_base(site.platform, root, below);
        if root.len() == 0 {
            assert(root + below == below);
        } else if root.last() == 0x2f {
            assert(root.drop_last().push(0x2f) == root);
            relative_paths_follow_the_base(site.platform, root.drop_last(), below);
        }
    }
    lemma_served_file(
        world,
        site,
        cache,
        url,
        brotli,
        static_path(site, root, path),
        static_cache_control(path),
    );
}

/// Where there is neither an embedded asset nor a static root, nothing is there, and the
/// cache stays as it is.
pub proof fn without_assets_and_root_nothing_is_there(
    world: World,
    site: SiteView,
    cache: CacheView,
    url: Seq<char>,
    path: Seq<char>,
    brotli: bool,
)
    requires
        !"/Extension/"@.is_prefix_of(path),
        (world.asset)(path) is None,
        site.static_root is None,
    ensures
        served(world, site, cache, url, path, brotli) == (AnswerView::NotFound, cache),
{
}

/// What a request adds to the cache is what it was answered with; and it changes nothing
/// that was there.
pub proof fn only_what_was_answered_is_kept(
    world: World,
    site: SiteView,
    cache: CacheView,
    url: Seq<char>,
    path: Seq<char>,
    brotli: bool,
    key: Seq<ComponentView>,
)
    ensures
        ({
            let (answer, kept) = served(world, site, cache, url, path, brotli);
            &&& cache.contains_key(key) ==> kept.contains_pair(key, cache[key])
            &&& kept.contains_key(key) && !cache.contains_key(key) ==> {
                &&& answer matches AnswerView::Content { url: shown, headers, body }
                &&& body == kept[key].bytes
                &&& headers.contains_pair("Content-Type"@, kept[key].mime)
                &&& headers.contains_key("Content-Encoding"@) == kept[key].brotli
            }
        }),
{
    if is_extension_path(path) {
        match resolved(site.platform, site.extension_roots, world.canonical, path) {
            Some(file) => {
                lemma_kept(world, site, cache, url, brotli, file, "no-cache"@, key);
            },
            None => {},
        }
    } else {
        match ((world.asset)(path), site.static_root) {
            (None, Some(root)) => {
                lemma_kept(
                    world,
                    site,
                    cache,
                    url,
                    brotli,
                    static_path(site, root, path),
                    static_cache_control(path),
                    key,
                );
            },
            _ => {},
        }
    }
}

/// A file that was read for a request is what the request is answered with, whatever is in
/// the cache by then.
pub proof fn what_was_read_is_answered(
    site: SiteView,
    cache: CacheView,
    exchange: ExchangeView,
    bytes: Seq<u8>,
)
    requires
        exchange.stage is Loading,
        exchange.stage->load is ReadSibling || exchange.stage->load is ReadFile,
    ensures
        ({
            let file = exchange.stage->file;
            let read = EventView::Disk(ReplyView::Contents(Some(bytes)));
            let failed = EventView::Disk(ReplyView::Contents(None));
            let found = CachedView {
                bytes,
                mime: mime_of(site.platform, file),
                brotli: exchange.stage->load is ReadSibling,
            };
            let key = components_of(site.platform, file);
            &&& advanced(site, cache, exchange, read).stage matches StageView::Done(answer)
            &&& is_file_answer(answer, exchange.url, found, exchange.stage->cache_control)
            &&& cache_then(site, cache, exchange, read) == cache.insert(key, found)
            &&& cache_then(site, cache, exchange, failed) == cache
            &&& exchange.stage->load is ReadFile ==> advanced(site, cache, exchange, failed).stage
                == StageView::Done(AnswerView::NotFound)
            &&& exchange.stage->load is ReadSibling ==> advanced(site, cache, exchange, failed).stage
                == (StageView::Loading {
                file,
                cache_control: exchange.stage->cache_control,
                load: LoadView::ReadFile,
            })
        }),
{
    let file = exchange.stage->file;
    file_headers_in_full(
        mime_of(site.platform, file),
        exchange.stage->load is ReadSibling,
        exchange.stage->cache_control,
    );
    what_was_read_is_brought_and_kept(site.platform, cache, file, bytes);
}

/// An event that an exchange does not wait for changes neither the exchange nor the cache,
/// and an answer that is there stays.
pub proof fn unexpected_events_change_nothing(
    site: SiteView,
    cache: CacheView,
    exchange: ExchangeView,
    event: EventView,
)
    requires
        ({
            ||| exchange.stage is Done
            ||| exchange.stage is Resolving && !(event is Canonical)
            ||| exchange.stage is Asset && !(event is Asset)
            ||| exchange.stage is Loading && !(event is Disk)
        }),
    ensures
        advanced(site, cache, exchange, event) == exchange,
        cache_then(site, cache, exchange, event) == cache,
{
}

/// An exchange keeps its URL, its path and whether the client takes Brotli.
pub proof fn exchanges_keep_their_request(
    site: SiteView,
    cache: CacheView,
    exchange: ExchangeView,
    event: EventView,
)
    ensures
        advanced(site, cache, exchange, event).url == exchange.url,
        advanced(site, cache, exchange, event).path == exchange.path,
        advanced(site, cache, exchange, event).brotli == exchange.brotli,
{
}

/// Nothing of a site, an asset, a file, a reply or an answer is left out of sight: each
/// holds the bytes and the texts of its parts.
pub proof fn everything_is_seen(
    site: Site,
    asset: Asset,
    file: CachedFile,
    bytes: Vec<u8>,
    path: PathBuf,
    answer: Answer,
)
    ensures
        site@.platform == site.platform,
        site@.extension_roots.len() == site.extension_roots@.len(),
        forall|i: int|
            0 <= i < site.extension_roots@.len() ==> #[trigger] site@.extension_roots[i]
                == path_bytes(site.extension_roots@[i]),
        site.static_root is None ==> site@.static_root is None,
        site.static_root matches Some(root) ==> site@.static_root == Some(path_bytes(root)),
        asset@.bytes == asset.bytes@,
        asset@.mime_type == asset.mime_type@,
        asset.csp_header is None ==> asset@.csp_header is None,
        asset.csp_header matches Some(policy) ==> asset@.csp_header == Some(policy@),
        file@.bytes == file.bytes@,
        file@.mime == file.mime@,
        file@.brotli == file.brotli,
        Event::Canonical(Some(path))@ == EventView::Canonical(Some(path_bytes(path))),
        Event::Canonical(None)@ == EventView::Canonical(None),
        Event::Asset(Some(asset))@ == EventView::Asset(Some(asset@)),
        Event::Asset(None)@ == EventView::Asset(None),
        Event::Disk(Reply::Contents(Some(bytes)))@ == EventView::Disk(
            ReplyView::Contents(Some(bytes@)),
        ),
        Event::Disk(Reply::Contents(None))@ == EventView::Disk(ReplyView::Contents(None)),
        Event::Disk(Reply::IsFile(true))@ == EventView::Disk(ReplyView::IsFile(true)),
        Event::Disk(Reply::IsFile(false))@ == EventView::Disk(ReplyView::IsFile(false)),
        answer is NotFound <==> answer@ is NotFound,
        answer matches Answer::Content { request, response, body } ==> answer@
            == (AnswerView::Content { url: request@, headers: response@, body: body@ }),
{
}

/// What has to be done is seen with the path that it has to be done with, and so is how
/// far a load and a resolution have got.
pub proof fn every_step_is_seen(path: PathBuf, text: String, file: CachedFile, next: usize)
    ensures
        Action::Canonicalize(path)@ == ActionView::Canonicalize(path_bytes(path)),
        Action::FindAsset(text)@ == ActionView::FindAsset(text@),
        Action::CheckFile(path)@ == ActionView::CheckFile(path_bytes(path)),
        Action::ReadFile(path)@ == ActionView::ReadFile(path_bytes(path)),
        Action::Finish@ == ActionView::Finish,
        Load::CheckSibling@ == LoadView::CheckSibling,
        Load::ReadSibling@ == LoadView::ReadSibling,
        Load::ReadFile@ == LoadView::ReadFile,
        Load::Loaded(file)@ == LoadView::Loaded(file@),
        Load::Missing@ == LoadView::Missing,
        Resolve::Candidate(path)@ == ResolveView::Candidate(path_bytes(path)),
        (Resolve::Root { file: path, next })@ == (ResolveView::Root {
            file: path_bytes(path),
            next: next as nat,
        }),
        Resolve::Found(path)@ == ResolveView::Found(path_bytes(path)),
        Resolve::Refused@ == ResolveView::Refused,
{
}

proof fn lemma_served_file(
    world: World,
    site: SiteView,
    cache: CacheView,
    url: Seq<char>,
    brotli: bool,
    file: Seq<u8>,
    cache_control: Seq<char>,
)
    ensures
        ends_with_file(
            world,
            site.platform,
            cache,
            url,
            brotli,
            file,
            cache_control,
            served_file(world, site, cache, url, brotli, file, cache_control),
        ),
{
    lemma_br_bytes();
    let key = components_of(site.platform, file);
    if cache.contains_key(key) {
        assert(cache.insert(key, cache[key]) =~= cache);
        file_headers_in_full(cache[key].mime, cache[key].brotli, cache_control);
    }
    file_headers_in_full(mime_of(site.platform, file), true, cache_control);
    file_headers_in_full(mime_of(site.platform, file), false, cache_control);
}

proof fn lemma_kept(
    world: World,
    site: SiteView,
    cache: CacheView,
    url: Seq<char>,
    brotli: bool,
    file: Seq<u8>,
    cache_control: Seq<char>,
    key: Seq<ComponentView>,
)
    ensures
        ({
            let (answer, kept) = served_file(world, site, cache, url, brotli, file, cache_control);
            &&& cache.contains_key(key) ==> kept.contains_pair(key, cache[key])
            &&& kept.contains_key(key) && !cache.contains_key(key) ==> {
                &&& answer matches AnswerView::Content { url: shown, headers, body }
                &&& body == kept[key].bytes
                &&& headers.contains_pair("Content-Type"@, kept[key].mime)
                &&& headers.contains_key("Content-Encoding"@) == kept[key].brotli
            }
        }),
{
    match loaded(site.platform, world.disk, cache, file, brotli) {
        Some(found) => {
            file_headers_in_full(found.mime, found.brotli, cache_control);
            compression_is_announced(found.mime, found.brotli, cache_control);
        },
        None => {},
    }
}

} // verus!
