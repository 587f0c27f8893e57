//! The course of a request, from its URL to the answer.
//!
//! An [`Exchange`] decides; it performs nothing. [`Site::action`] tells what has to be
//! done next, whoever runs the exchange does it, and [`Site::advance`] takes what came of
//! it, until there is an answer.

use std::path::PathBuf;
use vstd::prelude::*;

use crate::cache::{
    advance_load, begin_load, cache_advanced, cache_after, load_advanced, load_begun, loaded,
    pending_path, sibling, CacheView, CachedFile, CachedView, Disk, FileCache, Load, LoadView, Reply,
    ReplyView,
};
use crate::extension::{
    advance_resolve, at_root, begin_resolve, bytes_in, candidate, is_extension_path,
    is_extension_request, lies_below, named_file, resolve_advanced, resolve_begun, resolved, root_holds, Resolve,
    ResolveView,
};
use crate::headers::{accepts_brotli, asks_for_brotli, header_views};
use crate::message::Request;
use crate::mime::text_bytes;
use crate::path::{
    components_of, empty_path_has_no_components, join, joined, joining_extends_the_base, kept, only_descends, path_bytes, pieces, ComponentView,
    Platform,
};
use crate::response::{
    asset_headers, asset_response, file_headers, file_response, Answer, AnswerView,
};
use crate::route::{
    asked_path, asset_cache, asset_cache_control, ends_path, path_or_whole,
    query_is_not_part_of_the_path, request_path, static_cache,
    static_cache_control, static_candidate, static_file, static_file_is_relative, text_in, uri_path,
};

verus! {

/// What there is to serve besides the embedded assets.
pub struct Site {
    /// How paths are written.
    pub platform: Platform,
    /// The directories below which extensions' files may be served.
    pub extension_roots: Vec<PathBuf>,
    /// The directory whose files are served where no asset is embedded.
    pub static_root: Option<PathBuf>,
}

/// What a [`Site`] holds.
pub struct SiteView {
    pub platform: Platform,
    pub extension_roots: Seq<Seq<u8>>,
    pub static_root: Option<Seq<u8>>,
}

impl View for Site {
    type V = SiteView;

    open spec fn view(&self) -> SiteView {
        SiteView {
            platform: self.platform,
            extension_roots: self.extension_roots@.map_values(|root: PathBuf| path_bytes(root)),
            static_root: bytes_in(self.static_root),
        }
    }
}

/// An asset that is embedded in the program.
pub struct Asset {
    pub bytes: Vec<u8>,
    pub mime_type: String,
    pub csp_header: Option<String>,
}

/// What an [`Asset`] holds.
pub struct AssetView {
    pub bytes: Seq<u8>,
    pub mime_type: Seq<char>,
    pub csp_header: Option<Seq<char>>,
}

impl View for Asset {
    type V = AssetView;

    open spec fn view(&self) -> AssetView {
        AssetView {
            bytes: self.bytes@,
            mime_type: self.mime_type@,
            csp_header: text_in(self.csp_header),
        }
    }
}

/// Something that has to be done for an exchange to go on.
pub enum Action {
    /// Make the path canonical.
    Canonicalize(PathBuf),
    /// Look for the embedded asset at the path.
    FindAsset(String),
    /// Find out whether the path is a file.
    CheckFile(PathBuf),
    /// Read the file.
    ReadFile(PathBuf),
    /// Nothing: the exchange has its answer.
    Finish,
}

/// What an [`Action`] holds.
#[verifier::ext_equal]
pub enum ActionView {
    Canonicalize(Seq<u8>),
    FindAsset(Seq<char>),
    CheckFile(Seq<u8>),
    ReadFile(Seq<u8>),
    Finish,
}

impl View for Action {
    type V = ActionView;

    open spec fn view(&self) -> ActionView {
        match self {
            Action::Canonicalize(path) => ActionView::Canonicalize(path_bytes(*path)),
            Action::FindAsset(path) => ActionView::FindAsset(path@),
            Action::CheckFile(path) => ActionView::CheckFile(path_bytes(*path)),
            Action::ReadFile(path) => ActionView::ReadFile(path_bytes(*path)),
            Action::Finish => ActionView::Finish,
        }
    }
}

/// What came of an action.
pub enum Event {
    /// The canonical path, or `None` where there is none.
    Canonical(Option<PathBuf>),
    /// The embedded asset, if there is one.
    Asset(Option<Asset>),
    /// What the disk replied.
    Disk(Reply),
}

/// What an [`Event`] holds.
pub enum EventView {
    Canonical(Option<Seq<u8>>),
    Asset(Option<AssetView>),
    Disk(ReplyView),
}

impl View for Event {
    type V = EventView;

    open spec fn view(&self) -> EventView {
        match self {
            Event::Canonical(path) => EventView::Canonical(bytes_in(*path)),
            Event::Asset(None) => EventView::Asset(None),
            Event::Asset(Some(asset)) => EventView::Asset(Some(asset@)),
            Event::Disk(reply) => EventView::Disk(reply@),
        }
    }
}

/// How far an exchange has got.
enum Stage {
    Resolving(Resolve),
    Asset,
    Loading { file: PathBuf, cache_control: &'static str, load: Load },
    Done(Answer),
}

/// How far an exchange has got.
#[verifier::ext_equal]
pub enum StageView {
    /// The file of an extension is being resolved.
    Resolving(ResolveView),
    /// An embedded asset is being looked for.
    Asset,
    /// A file is being loaded.
    Loading { file: Seq<u8>, cache_control: Seq<char>, load: LoadView },
    /// The answer is there.
    Done(AnswerView),
}

impl Stage {
    spec fn view(&self) -> StageView {
        match self {
            Stage::Resolving(resolve) => StageView::Resolving(resolve@),
            Stage::Asset => StageView::Asset,
            Stage::Loading { file, cache_control, load } => StageView::Loading {
                file: path_bytes(*file),
                cache_control: cache_control@,
                load: load@,
            },
            Stage::Done(answer) => StageView::Done(answer@),
        }
    }
}

/// A request on its way to an answer.
pub struct Exchange {
    url: String,
    path: String,
    brotli: bool,
    stage: Stage,
}

/// What an [`Exchange`] holds.
#[verifier::ext_equal]
pub struct ExchangeView {
    /// The URL of the request.
    pub url: Seq<char>,
    /// The path that it asks for.
    pub path: Seq<char>,
    /// Whether the client takes Brotli-compressed content.
    pub brotli: bool,
    pub stage: StageView,
}

impl View for Exchange {
    type V = ExchangeView;

    closed spec fn view(&self) -> ExchangeView {
        ExchangeView {
            url: self.url@,
            path: self.path@,
            brotli: self.brotli,
            stage: self.stage@,
        }
    }
}

/// The answer with a file.
pub open spec fn file_answer(
    url: Seq<char>,
    file: CachedView,
    cache_control: Seq<char>,
) -> AnswerView {
    AnswerView::Content {
        url,
        headers: file_headers(file.mime, file.brotli, cache_control, seq![]),
        body: file.bytes,
    }
}

/// The answer with an embedded asset. The hook is shown the asset's MIME type for a URL.
pub open spec fn asset_answer(path: Seq<char>, asset: AssetView) -> AnswerView {
    AnswerView::Content {
        url: asset.mime_type,
        headers: asset_headers(asset.mime_type, asset_cache_control(path), asset.csp_header),
        body: asset.bytes,
    }
}

/// The stage of a load: over where the load is.
pub open spec fn load_stage(
    url: Seq<char>,
    file: Seq<u8>,
    cache_control: Seq<char>,
    load: LoadView,
) -> StageView {
    match load {
        LoadView::Loaded(found) => StageView::Done(file_answer(url, found, cache_control)),
        LoadView::Missing => StageView::Done(AnswerView::NotFound),
        _ => StageView::Loading { file, cache_control, load },
    }
}

/// The stage in which the load of a file begins.
pub open spec fn load_start(
    site: SiteView,
    cache: CacheView,
    url: Seq<char>,
    brotli: bool,
    file: Seq<u8>,
    cache_control: Seq<char>,
) -> StageView {
    load_stage(
        url,
        file,
        cache_control,
        load_begun(cache, components_of(site.platform, file), brotli),
    )
}

/// The stage of a resolution: over where it was refused, a load where it found the file.
pub open spec fn resolve_stage(
    site: SiteView,
    cache: CacheView,
    url: Seq<char>,
    brotli: bool,
    resolve: ResolveView,
) -> StageView {
    match resolve {
        ResolveView::Found(file) => load_start(site, cache, url, brotli, file, "no-cache"@),
        ResolveView::Refused => StageView::Done(AnswerView::NotFound),
        _ => StageView::Resolving(resolve),
    }
}

/// The exchange as it begins.
pub open spec fn opened(
    site: SiteView,
    cache: CacheView,
    url: Seq<char>,
    path: Seq<char>,
    brotli: bool,
) -> ExchangeView {
    let stage = if !is_extension_path(path) {
        StageView::Asset
    } else if site.extension_roots.len() == 0 {
        StageView::Done(AnswerView::NotFound)
    } else {
        resolve_stage(site, cache, url, brotli, resolve_begun(site.platform, path))
    };
    ExchangeView { url, path, brotli, stage }
}

/// The file below the static root that a path stands for.
pub open spec fn static_path(site: SiteView, root: Seq<u8>, path: Seq<char>) -> Seq<u8> {
    joined(site.platform, root, text_bytes(static_file(path)))
}

/// The stage after an event. An event that the exchange did not wait for changes nothing.
pub open spec fn stage_advanced(
    site: SiteView,
    cache: CacheView,
    exchange: ExchangeView,
    event: EventView,
) -> StageView {
    match (exchange.stage, event) {
        (StageView::Resolving(resolve), EventView::Canonical(canonical)) => resolve_stage(
            site,
            cache,
            exchange.url,
            exchange.brotli,
            resolve_advanced(site.platform, site.extension_roots.len(), resolve, canonical),
        ),
        (StageView::Asset, EventView::Asset(Some(asset))) => StageView::Done(
            asset_answer(exchange.path, asset),
        ),
        (StageView::Asset, EventView::Asset(None)) => match site.static_root {
            Some(root) => load_start(
                site,
                cache,
                exchange.url,
                exchange.brotli,
                static_path(site, root, exchange.path),
                static_cache_control(exchange.path),
            ),
            None => StageView::Done(AnswerView::NotFound),
        },
        (StageView::Loading { file, cache_control, load }, EventView::Disk(reply)) => load_stage(
            exchange.url,
            file,
            cache_control,
            load_advanced(site.platform, file, load, reply),
        ),
        _ => exchange.stage,
    }
}

/// The exchange after an event.
pub open spec fn advanced(
    site: SiteView,
    cache: CacheView,
    exchange: ExchangeView,
    event: EventView,
) -> ExchangeView {
    ExchangeView { stage: stage_advanced(site, cache, exchange, event), ..exchange }
}

/// The cache after an event.
pub open spec fn cache_then(
    site: SiteView,
    cache: CacheView,
    exchange: ExchangeView,
    event: EventView,
) -> CacheView {
    match (exchange.stage, event) {
        (StageView::Loading { file, cache_control, load }, EventView::Disk(reply)) => cache_advanced(
            site.platform,
            cache,
            file,
            load,
            reply,
        ),
        _ => cache,
    }
}

/// What has to be done for the exchange to go on.
pub open spec fn action_of(site: SiteView, exchange: ExchangeView) -> ActionView {
    match exchange.stage {
        StageView::Resolving(ResolveView::Candidate(file)) => ActionView::Canonicalize(file),
        StageView::Resolving(ResolveView::Root { file, next }) => if next
            < site.extension_roots.len() {
            ActionView::Canonicalize(site.extension_roots[next as int])
        } else {
            ActionView::Finish
        },
        StageView::Asset => ActionView::FindAsset(exchange.path),
        StageView::Loading { file, cache_control, load } => match load {
            LoadView::CheckSibling => ActionView::CheckFile(sibling(file)),
            LoadView::ReadSibling => ActionView::ReadFile(sibling(file)),
            LoadView::ReadFile => ActionView::ReadFile(file),
            _ => ActionView::Finish,
        },
        _ => ActionView::Finish,
    }
}

fn answer_file(url: &str, file: CachedFile, cache_control: &str) -> (r: Answer)
    ensures
        r@ == file_answer(url@, file@, cache_control@),
{
    let response = file_response(file.mime, file.brotli, cache_control, &[]);
    assert(crate::response::pair_views(Seq::<(&str, &str)>::empty()) =~= seq![]);
    Answer::Content { request: Request::new(url.to_owned()), response, body: file.bytes }
}

fn answer_asset(path: &str, asset: Asset) -> (r: Answer)
    ensures
        r@ == asset_answer(path@, asset@),
{
    let response = asset_response(asset.mime_type.as_str(), asset_cache(path), asset.csp_header);
    Answer::Content { request: Request::new(asset.mime_type), response, body: asset.bytes }
}

fn stage_of_load(url: &str, file: PathBuf, cache_control: &'static str, load: Load) -> (r: Stage)
    ensures
        r@ == load_stage(url@, path_bytes(file), cache_control@, load@),
{
    match load {
        Load::Loaded(found) => Stage::Done(answer_file(url, found, cache_control)),
        Load::Missing => Stage::Done(Answer::NotFound),
        other => Stage::Loading { file, cache_control, load: other },
    }
}

impl Site {
    fn start_load(
        &self,
        cache: &FileCache,
        url: &str,
        brotli: bool,
        file: PathBuf,
        cache_control: &'static str,
    ) -> (r: Stage)
        ensures
            r@ == load_start(self@, cache@, url@, brotli, path_bytes(file), cache_control@),
    {
        let load = begin_load(self.platform, cache, &file, brotli);
        stage_of_load(url, file, cache_control, load)
    }

    fn stage_of_resolve(
        &self,
        cache: &FileCache,
        url: &str,
        brotli: bool,
        resolve: Resolve,
    ) -> (r: Stage)
        ensures
            r@ == resolve_stage(self@, cache@, url@, brotli, resolve@),
    {
        match resolve {
            Resolve::Found(file) => self.start_load(cache, url, brotli, file, "no-cache"),
            Resolve::Refused => Stage::Done(Answer::NotFound),
            other => Stage::Resolving(other),
        }
    }

    /// Begins an exchange for a request with this URL and these headers.
    pub fn open(
        &self,
        cache: &FileCache,
        url: String,
        headers: &Vec<(String, String)>,
    ) -> (r: Exchange)
        ensures
            r@ == opened(
                self@,
                cache@,
                url@,
                asked_path(url@),
                asks_for_brotli(header_views(headers@)),
            ),
            r@.path == path_or_whole(uri_path(url@), url@),
    {
        let path = request_path(url.as_str());
        self.open_at(cache, url, path, accepts_brotli(headers))
    }

    /// Begins an exchange for a request whose URL asks for this path.
    pub fn open_at(
        &self,
        cache: &FileCache,
        url: String,
        path: String,
        brotli: bool,
    ) -> (r: Exchange)
        ensures
            r@ == opened(self@, cache@, url@, path@, brotli),
    {
        let stage = if !is_extension_request(path.as_str()) {
            Stage::Asset
        } else if self.extension_roots.len() == 0 {
            Stage::Done(Answer::NotFound)
        } else {
            self.stage_of_resolve(
                cache,
                url.as_str(),
                brotli,
                begin_resolve(self.platform, path.as_str()),
            )
        };
        Exchange { url, path, brotli, stage }
    }

    /// What has to be done for the exchange to go on.
    pub fn action(&self, exchange: &Exchange) -> (r: Action)
        ensures
            r@ == action_of(self@, exchange@),
    {
        match &exchange.stage {
            Stage::Resolving(Resolve::Candidate(file)) => Action::Canonicalize(file.clone()),
            Stage::Resolving(Resolve::Root { file: _, next }) => {
                if *next < self.extension_roots.len() {
                    Action::Canonicalize(self.extension_roots[*next].clone())
                } else {
                    Action::Finish
                }
            },
            Stage::Asset => Action::FindAsset(exchange.path.clone()),
            Stage::Loading { file, cache_control: _, load } => match pending_path(load, file) {
                Some(path) => match load {
                    Load::CheckSibling => Action::CheckFile(path),
                    _ => Action::ReadFile(path),
                },
                None => Action::Finish,
            },
            _ => Action::Finish,
        }
    }

    /// Goes on with the exchange after an event.
    pub fn advance(&self, cache: &mut FileCache, exchange: Exchange, event: Event) -> (r: Exchange)
        ensures
            r@ == advanced(self@, old(cache)@, exchange@, event@),
            final(cache)@ == cache_then(self@, old(cache)@, exchange@, event@),
    {
        let Exchange { url, path, brotli, stage } = exchange;
        let next = match (stage, event) {
            (Stage::Resolving(resolve), Event::Canonical(canonical)) => self.stage_of_resolve(
                cache,
                url.as_str(),
                brotli,
                advance_resolve(self.platform, self.extension_roots.len(), resolve, canonical),
            ),
            (Stage::Asset, Event::Asset(Some(asset))) => Stage::Done(
                answer_asset(path.as_str(), asset),
            ),
            (Stage::Asset, Event::Asset(None)) => match &self.static_root {
                Some(root) => {
                    let name = static_candidate(path.as_str());
                    let file = join(self.platform, root, name.as_str());
                    self.start_load(cache, url.as_str(), brotli, file, static_cache(path.as_str()))
                },
                None => Stage::Done(Answer::NotFound),
            },
            (Stage::Loading { file, cache_control, load }, Event::Disk(reply)) => {
                let load = advance_load(self.platform, cache, &file, load, reply);
                stage_of_load(url.as_str(), file, cache_control, load)
            },
            (stage, _) => stage,
        };
        Exchange { url, path, brotli, stage: next }
    }
}

impl Exchange {
    /// The answer, once it is there.
    pub fn into_answer(self) -> (r: Option<Answer>)
        ensures
            match self@.stage {
                StageView::Done(answer) => r is Some && r->0@ == answer,
                _ => r is None,
            },
    {
        match self.stage {
            Stage::Done(answer) => Some(answer),
            _ => None,
        }
    }
}

/// All that an exchange can find out, where none of it changes meanwhile: the canonical
/// forms of paths, the embedded assets and the disk.
pub struct World {
    pub canonical: spec_fn(Seq<u8>) -> Option<Seq<u8>>,
    pub asset: spec_fn(Seq<char>) -> Option<AssetView>,
    pub disk: Disk,
}

/// What comes of an action.
pub open spec fn event_of(world: World, action: ActionView) -> EventView {
    match action {
        ActionView::Canonicalize(path) => EventView::Canonical((world.canonical)(path)),
        ActionView::FindAsset(path) => EventView::Asset((world.asset)(path)),
        ActionView::CheckFile(path) => EventView::Disk(ReplyView::IsFile((world.disk.is_file)(path))),
        ActionView::ReadFile(path) => EventView::Disk(
            ReplyView::Contents((world.disk.contents)(path)),
        ),
        ActionView::Finish => EventView::Asset(None),
    }
}

/// The exchange and the cache after `steps` actions, or as many as there are.
pub open spec fn run(
    world: World,
    site: SiteView,
    cache: CacheView,
    exchange: ExchangeView,
    steps: nat,
) -> (ExchangeView, CacheView)
    decreases steps,
{
    if steps == 0 || exchange.stage is Done {
        (exchange, cache)
    } else {
        let event = event_of(world, action_of(site, exchange));
        run(
            world,
            site,
            cache_then(site, cache, exchange, event),
            advanced(site, cache, exchange, event),
            (steps - 1) as nat,
        )
    }
}

/// The answer with the file at a path, or that there is none; and the cache after it.
pub open spec fn served_file(
    world: World,
    site: SiteView,
    cache: CacheView,
    url: Seq<char>,
    brotli: bool,
    file: Seq<u8>,
    cache_control: Seq<char>,
) -> (AnswerView, CacheView) {
    let key = components_of(site.platform, file);
    let found = loaded(site.platform, world.disk, cache, file, brotli);
    let answer = match found {
        Some(content) => file_answer(url, content, cache_control),
        None => AnswerView::NotFound,
    };
    (answer, cache_after(cache, key, found))
}

/// The answer to a request, and the cache after it.
///
/// - `/Extension/<path>`: the file at the path, where it lies below a root for extensions.
/// - Otherwise the embedded asset at the path, where there is one.
/// - Otherwise the file below the static root, where there is such a root.
/// - Otherwise nothing is there.
pub open spec fn served(
    world: World,
    site: SiteView,
    cache: CacheView,
    url: Seq<char>,
    path: Seq<char>,
    brotli: bool,
) -> (AnswerView, CacheView) {
    if is_extension_path(path) {
        match resolved(site.platform, site.extension_roots, world.canonical, path) {
            Some(file) => served_file(world, site, cache, url, brotli, file, "no-cache"@),
            None => (AnswerView::NotFound, cache),
        }
    } else {
        match ((world.asset)(path), site.static_root) {
            (Some(asset), _) => (asset_answer(path, asset), cache),
            (None, Some(root)) => served_file(
                world,
                site,
                cache,
                url,
                brotli,
                static_path(site, root, path),
                static_cache_control(path),
            ),
            (None, None) => (AnswerView::NotFound, cache),
        }
    }
}

/// Every exchange comes to an end, within five actions and one for each root for
/// extensions, and the end is the answer that [`served`] tells.
pub proof fn exchange_ends_with_the_answer(
    world: World,
    site: SiteView,
    cache: CacheView,
    url: Seq<char>,
    path: Seq<char>,
    brotli: bool,
    steps: nat,
)
    requires
        steps >= site.extension_roots.len() + 5,
    ensures
        ({
            let end = run(world, site, cache, opened(site, cache, url, path, brotli), steps);
            let (answer, kept) = served(world, site, cache, url, path, brotli);
            end.0.stage == StageView::Done(answer) && end.1 == kept
        }),
{
    if is_extension_path(path) {
        lemma_extension_route(world, site, cache, url, path, brotli, steps);
    } else {
        lemma_asset_route(world, site, cache, url, path, brotli, steps);
    }
}

proof fn lemma_asset_route(
    world: World,
    site: SiteView,
    cache: CacheView,
    url: Seq<char>,
    path: Seq<char>,
    brotli: bool,
    steps: nat,
)
    requires
        steps >= 5,
        !is_extension_path(path),
    ensures
        ({
            let end = run(world, site, cache, opened(site, cache, url, path, brotli), steps);
            let (answer, kept) = served(world, site, cache, url, path, brotli);
            end.0.stage == StageView::Done(answer) && end.1 == kept
        }),
{
    let x = opened(site, cache, url, path, brotli);
    let event = EventView::Asset((world.asset)(path));
    assert(event_of(world, action_of(site, x)) == event);
    let y = advanced(site, cache, x, event);
    let left = (steps - 1) as nat;
    assert(run(world, site, cache, x, steps) == run(world, site, cache, y, left));
    match ((world.asset)(path), site.static_root) {
        (None, Some(root)) => {
            lemma_load(
                world,
                site,
                cache,
                y,
                static_path(site, root, path),
                static_cache_control(path),
                left,
            );
        },
        _ => {
            assert(y.stage is Done);
        },
    }
}

proof fn lemma_extension_route(
    world: World,
    site: SiteView,
    cache: CacheView,
    url: Seq<char>,
    path: Seq<char>,
    brotli: bool,
    steps: nat,
)
    requires
        steps >= site.extension_roots.len() + 5,
        is_extension_path(path),
    ensures
        ({
            let end = run(world, site, cache, opened(site, cache, url, path, brotli), steps);
            let (answer, kept) = served(world, site, cache, url, path, brotli);
            end.0.stage == StageView::Done(answer) && end.1 == kept
        }),
{
    let x = opened(site, cache, url, path, brotli);
    let left = (steps - 1) as nat;
    if site.extension_roots.len() == 0 || candidate(site.platform, path) is None {
        assert(x.stage == StageView::Done(AnswerView::NotFound));
    } else {
        let named = candidate(site.platform, path)->0;
        let event = EventView::Canonical((world.canonical)(named));
        assert(event_of(world, action_of(site, x)) == event);
        let y = advanced(site, cache, x, event);
        assert(run(world, site, cache, x, steps) == run(world, site, cache, y, left));
        match (world.canonical)(named) {
            Some(file) => {
                lemma_resolve(world, site, cache, y, file, 0, left);
            },
            None => {
                assert(y.stage == StageView::Done(AnswerView::NotFound));
            },
        }
    }
}

/// The two answers differ at most in the URL that a hook is shown: what is sent without a
/// hook is the same.
pub open spec fn same_but_url(a: AnswerView, b: AnswerView) -> bool {
    match (a, b) {
        (AnswerView::NotFound, AnswerView::NotFound) => true,
        (
            AnswerView::Content { url: _, headers: a_headers, body: a_body },
            AnswerView::Content { url: _, headers: b_headers, body: b_body },
        ) => a_headers == b_headers && a_body == b_body,
        _ => false,
    }
}

/// Two URLs that ask for the same path are answered alike, and leave the same cache.
pub proof fn only_the_path_decides(
    world: World,
    site: SiteView,
    cache: CacheView,
    url: Seq<char>,
    other: Seq<char>,
    path: Seq<char>,
    brotli: bool,
)
    ensures
        ({
            let (answer, kept) = served(world, site, cache, url, path, brotli);
            let (other_answer, other_kept) = served(world, site, cache, other, path, brotli);
            same_but_url(answer, other_answer) && kept == other_kept
        }),
{
}

/// A query or a fragment has no influence: where a URL is a URI both with it and without,
/// the two exchanges end with the same content or both with none, and leave the same cache.
pub proof fn query_has_no_influence(
    world: World,
    site: SiteView,
    cache: CacheView,
    url: Seq<char>,
    query: Seq<char>,
    brotli: bool,
    steps: nat,
)
    requires
        !url.contains('?'),
        !url.contains('#'),
        query.len() > 0 ==> ends_path(query[0]),
        steps >= site.extension_roots.len() + 5,
    ensures
        uri_path(url) is Some && uri_path(url + query) is Some ==> {
            let long = url + query;
            let a = run(world, site, cache, opened(site, cache, url, asked_path(url), brotli), steps);
            let b = run(
                world,
                site,
                cache,
                opened(site, cache, long, asked_path(long), brotli),
                steps,
            );
            &&& a.0.stage matches StageView::Done(answer)
            &&& b.0.stage matches StageView::Done(long_answer)
            &&& same_but_url(answer, long_answer)
            &&& a.1 == b.1
        },
{
    let long = url + query;
    query_is_not_part_of_the_path(url, query);
    exchange_ends_with_the_answer(world, site, cache, url, asked_path(url), brotli, steps);
    exchange_ends_with_the_answer(world, site, cache, long, asked_path(long), brotli, steps);
    only_the_path_decides(world, site, cache, url, long, asked_path(url), brotli);
}

/// A request for an extension's file is refused at once where no root is registered.
pub proof fn no_root_no_extension(
    site: SiteView,
    cache: CacheView,
    url: Seq<char>,
    path: Seq<char>,
    brotli: bool,
)
    requires
        is_extension_path(path),
        site.extension_roots.len() == 0,
    ensures
        opened(site, cache, url, path, brotli).stage == StageView::Done(AnswerView::NotFound),
{
}

/// What an extension's request is answered with comes from a file below a root, and its
/// path does not lead upwards.
pub proof fn extension_content_lies_below_a_root(
    world: World,
    site: SiteView,
    cache: CacheView,
    url: Seq<char>,
    path: Seq<char>,
    brotli: bool,
)
    requires
        is_extension_path(path),
        !(served(world, site, cache, url, path, brotli).0 is NotFound),
    ensures
        ({
            let named = text_bytes(named_file(site.platform, path));
            let file = (world.canonical)(named);
            &&& only_descends(components_of(site.platform, named))
            &&& file is Some
            &&& exists|i: int|
                0 <= i < site.extension_roots.len() && root_holds(
                    site.platform,
                    world.canonical,
                    #[trigger] site.extension_roots[i],
                    file->0,
                )
            &&& served(world, site, cache, url, path, brotli) == served_file(
                world,
                site,
                cache,
                url,
                brotli,
                file->0,
                "no-cache"@,
            )
        }),
{
}

/// Where paths are written with slashes, the file that a path stands for is written below
/// the static root: whatever the path, the root's components come first. A `..` behind
/// them counts as any other component here.
pub proof fn static_files_are_written_below_the_root(
    site: SiteView,
    root: Seq<u8>,
    path: Seq<char>,
)
    requires
        site.platform.is_unix(),
    ensures
        lies_below(site.platform, static_path(site, root, path), root),
{
    let name = static_file(path);
    let tail = text_bytes(name);
    let base = components_of(site.platform, root);
    let whole = components_of(site.platform, static_path(site, root, path));
    if root.len() == 0 {
        assert(root == Seq::<u8>::empty());
        empty_path_has_no_components();
    } else {
        static_file_is_relative(path);
        lemma_first_byte(name);
        joining_extends_the_base(root, tail);
        assert(whole == base + kept(pieces(tail)));
    }
    assert(base =~= whole.subrange(0, base.len() as int));
}

/// Text that does not start with a slash has bytes that do not.
pub(crate) proof fn lemma_first_byte(text: Seq<char>)
    requires
        text.len() > 0,
        text[0] != '/',
    ensures
        text_bytes(text).len() > 0,
        text_bytes(text)[0] != 0x2f,
{
    let c = text[0] as u32;
    assert(text_bytes(text) == vstd::utf8::encode_scalar(c) + vstd::utf8::encode_utf8(
        text.drop_first(),
    ));
    vstd::utf8::char_is_scalar(text[0]);
    vstd::utf8::char_u32_cast(text[0], c);
    assert(c != 0x2f);
    let first = vstd::utf8::encode_scalar(c);
    if c <= 0x7f {
        assert((c & 0x7f) as u8 != 0x2f) by (bit_vector)
            requires
                c <= 0x7f,
                c != 0x2f,
        ;
        assert(first[0] != 0x2f);
    } else {
        let b2 = ((c >> 6) & 0x1F) as u8;
        let b3 = ((c >> 12) & 0x0F) as u8;
        let b4 = ((c >> 18) & 0x7) as u8;
        assert(0xC0u8 | b2 != 0x2f) by (bit_vector);
        assert(0xE0u8 | b3 != 0x2f) by (bit_vector);
        assert(0xF0u8 | b4 != 0x2f) by (bit_vector);
        assert(first[0] != 0x2f);
    }
}

/// What is in the cache stays there as it is, whatever is served.
pub proof fn cached_files_stay(
    world: World,
    site: SiteView,
    cache: CacheView,
    url: Seq<char>,
    path: Seq<char>,
    brotli: bool,
    key: Seq<ComponentView>,
)
    requires
        cache.contains_key(key),
    ensures
        served(world, site, cache, url, path, brotli).1.contains_pair(key, cache[key]),
{
}

/// A file that was served once is served with the same content from then on, whatever the
/// world has become and whichever encodings the client takes.
pub proof fn served_file_is_served_again(
    world: World,
    later: World,
    site: SiteView,
    cache: CacheView,
    url: Seq<char>,
    brotli: bool,
    url_later: Seq<char>,
    brotli_later: bool,
    file: Seq<u8>,
    cache_control: Seq<char>,
)
    requires
        !(served_file(world, site, cache, url, brotli, file, cache_control).0 is NotFound),
    ensures
        ({
            let (first, kept) = served_file(world, site, cache, url, brotli, file, cache_control);
            let (second, kept_later) = served_file(
                later,
                site,
                kept,
                url_later,
                brotli_later,
                file,
                cache_control,
            );
            &&& second->body == first->body
            &&& second->headers == first->headers
            &&& second->url == url_later
            &&& kept_later == kept
        }),
{
    let key = components_of(site.platform, file);
    let found = loaded(site.platform, world.disk, cache, file, brotli);
    let kept = cache_after(cache, key, found);
    assert(kept.contains_key(key) && kept[key] == found->0);
    assert(kept.insert(key, kept[key]) =~= kept);
}

/// From the beginning of a load on, the exchange ends with the file.
proof fn lemma_load(
    world: World,
    site: SiteView,
    cache: CacheView,
    x: ExchangeView,
    file: Seq<u8>,
    cache_control: Seq<char>,
    steps: nat,
)
    requires
        steps >= 3,
        x.stage == load_start(site, cache, x.url, x.brotli, file, cache_control),
    ensures
        ({
            let end = run(world, site, cache, x, steps);
            let (answer, kept) = served_file(
                world,
                site,
                cache,
                x.url,
                x.brotli,
                file,
                cache_control,
            );
            end.0.stage == StageView::Done(answer) && end.1 == kept
        }),
{
    reveal_with_fuel(run, 5);
    let key = components_of(site.platform, file);
    if cache.contains_key(key) {
        assert(cache.insert(key, cache[key]) =~= cache);
    }
}

/// From the look at a root on, the exchange ends with the file where this root or one
/// after it holds it.
proof fn lemma_resolve(
    world: World,
    site: SiteView,
    cache: CacheView,
    x: ExchangeView,
    file: Seq<u8>,
    next: nat,
    steps: nat,
)
    requires
        next <= site.extension_roots.len(),
        steps >= site.extension_roots.len() - next + 3,
        x.stage == resolve_stage(
            site,
            cache,
            x.url,
            x.brotli,
            at_root(site.extension_roots.len(), file, next),
        ),
    ensures
        ({
            let roots = site.extension_roots;
            let end = run(world, site, cache, x, steps);
            let (answer, kept) = if exists|i: int|
                next <= i < roots.len() && root_holds(
                    site.platform,
                    world.canonical,
                    #[trigger] roots[i],
                    file,
                ) {
                served_file(world, site, cache, x.url, x.brotli, file, "no-cache"@)
            } else {
                (AnswerView::NotFound, cache)
            };
            end.0.stage == StageView::Done(answer) && end.1 == kept
        }),
    decreases site.extension_roots.len() - next,
{
    let roots = site.extension_roots;
    if next < roots.len() {
        let canonical = (world.canonical)(roots[next as int]);
        let y = advanced(site, cache, x, EventView::Canonical(canonical));
        let left = (steps - 1) as nat;
        if root_holds(site.platform, world.canonical, roots[next as int], file) {
            lemma_load(world, site, cache, y, file, "no-cache"@, left);
        } else {
            lemma_resolve(world, site, cache, y, file, next + 1, left);
            assert forall|i: int|
                next <= i < roots.len() && root_holds(
                    site.platform,
                    world.canonical,
                    #[trigger] roots[i],
                    file,
                ) implies next + 1 <= i by {}
        }
    }
}

} // verus!
