//! The in-memory file cache, and how a file gets into it.
//!
//! Each file is loaded once: [`begin_load`] answers from the cache where it can. Where it
//! cannot, the load asks for one disk operation after the other, and [`advance_load`]
//! takes what came of each.

use std::path::PathBuf;
use vstd::prelude::*;

use crate::mime::{lemma_br_bytes, mime_from_extension, mime_of, text_bytes};
use crate::path::{
    append, components_of, path_bytes, split, views, ComponentView, PathComponent,
    Platform,
};
use crate::table::{entry_map, find, keys_differ, with_entry};
use crate::text::copy_bytes;

verus! {

/// A file in memory. Its bytes are those of the file or of its pre-compressed sibling;
/// `brotli` says which.
pub struct CachedFile {
    /// Raw or Brotli-compressed bytes of the file.
    pub bytes: Vec<u8>,
    /// MIME type, by the extension of the original file.
    pub mime: &'static str,
    /// Whether `bytes` are Brotli-compressed.
    pub brotli: bool,
}

/// What a [`CachedFile`] holds.
#[verifier::ext_equal]
pub struct CachedView {
    pub bytes: Seq<u8>,
    pub mime: Seq<char>,
    pub brotli: bool,
}

impl View for CachedFile {
    type V = CachedView;

    open spec fn view(&self) -> CachedView {
        CachedView { bytes: self.bytes@, mime: self.mime@, brotli: self.brotli }
    }
}

impl CachedFile {
    fn copy(&self) -> (r: CachedFile)
        ensures
            r@ == self@,
    {
        CachedFile { bytes: copy_bytes(&self.bytes), mime: self.mime, brotli: self.brotli }
    }
}

/// What a cache holds: files by the components of their paths, so that two spellings of
/// a path find the same file.
pub type CacheView = Map<Seq<ComponentView>, CachedView>;

/// The files that have been loaded. No path occurs twice.
pub struct FileCache {
    entries: Vec<(Vec<PathComponent>, CachedFile)>,
}

impl View for FileCache {
    type V = CacheView;

    closed spec fn view(&self) -> CacheView {
        entry_map(self.entries@)
    }
}

impl FileCache {
    #[verifier::type_invariant]
    spec fn well_formed(self) -> bool {
        keys_differ(self.entries@)
    }

    /// A cache without files.
    pub fn new() -> (r: FileCache)
        ensures
            r@ == Map::<Seq<ComponentView>, CachedView>::empty(),
    {
        FileCache { entries: Vec::new() }
    }

    /// The file at the path with these components, if it has been loaded.
    pub fn get(&self, path: &Vec<PathComponent>) -> (r: Option<&CachedFile>)
        ensures
            match r {
                Some(file) => self@.contains_key(views(path@)) && file@ == self@[views(path@)],
                None => !self@.contains_key(views(path@)),
            },
    {
        proof {
            use_type_invariant(self);
        }
        match find(&self.entries, path) {
            Some(at) => Some(&self.entries[at].1),
            None => None,
        }
    }

    /// Puts the file at the path with these components, in place of the one there.
    pub fn insert(&mut self, path: Vec<PathComponent>, file: CachedFile)
        ensures
            final(self)@ == old(self)@.insert(views(path@), file@),
    {
        proof {
            use_type_invariant(&*self);
        }
        let mut entries: Vec<(Vec<PathComponent>, CachedFile)> = Vec::new();
        std::mem::swap(&mut entries, &mut self.entries);
        self.entries = with_entry(entries, path, file);
    }
}

/// How far a load has got.
pub enum Load {
    /// Whether the pre-compressed sibling is a file has to be found out.
    CheckSibling,
    /// The pre-compressed sibling has to be read.
    ReadSibling,
    /// The file itself has to be read.
    ReadFile,
    /// The file is there.
    Loaded(CachedFile),
    /// The file cannot be read.
    Missing,
}

/// What a [`Load`] holds.
#[verifier::ext_equal]
pub enum LoadView {
    CheckSibling,
    ReadSibling,
    ReadFile,
    Loaded(CachedView),
    Missing,
}

impl View for Load {
    type V = LoadView;

    open spec fn view(&self) -> LoadView {
        match self {
            Load::CheckSibling => LoadView::CheckSibling,
            Load::ReadSibling => LoadView::ReadSibling,
            Load::ReadFile => LoadView::ReadFile,
            Load::Loaded(file) => LoadView::Loaded(file@),
            Load::Missing => LoadView::Missing,
        }
    }
}

/// What came of a disk operation.
pub enum Reply {
    /// Whether there is a file.
    IsFile(bool),
    /// What the file holds, or `None` where it cannot be read.
    Contents(Option<Vec<u8>>),
}

/// What a [`Reply`] holds.
#[verifier::ext_equal]
pub enum ReplyView {
    IsFile(bool),
    Contents(Option<Seq<u8>>),
}

impl View for Reply {
    type V = ReplyView;

    open spec fn view(&self) -> ReplyView {
        match self {
            Reply::IsFile(yes) => ReplyView::IsFile(*yes),
            Reply::Contents(None) => ReplyView::Contents(None),
            Reply::Contents(Some(bytes)) => ReplyView::Contents(Some(bytes@)),
        }
    }
}

/// The path of the pre-compressed sibling: the path with `.br` behind it.
pub open spec fn sibling(path: Seq<u8>) -> Seq<u8> {
    path + text_bytes(".br"@)
}

/// The load of a file as it begins: done where the file is in the cache, otherwise with a
/// look at the sibling where the client takes Brotli.
pub open spec fn load_begun(cache: CacheView, key: Seq<ComponentView>, brotli: bool) -> LoadView {
    if cache.contains_key(key) {
        LoadView::Loaded(cache[key])
    } else if brotli {
        LoadView::CheckSibling
    } else {
        LoadView::ReadFile
    }
}

/// The load after a disk operation. A reply to an operation that the load did not ask for
/// leaves it as it is.
pub open spec fn load_advanced(
    platform: Platform,
    path: Seq<u8>,
    load: LoadView,
    reply: ReplyView,
) -> LoadView {
    match (load, reply) {
        (LoadView::CheckSibling, ReplyView::IsFile(yes)) => if yes {
            LoadView::ReadSibling
        } else {
            LoadView::ReadFile
        },
        (LoadView::ReadSibling, ReplyView::Contents(Some(bytes))) => LoadView::Loaded(
            CachedView { bytes, mime: mime_of(platform, path), brotli: true },
        ),
        (LoadView::ReadSibling, ReplyView::Contents(None)) => LoadView::ReadFile,
        (LoadView::ReadFile, ReplyView::Contents(Some(bytes))) => LoadView::Loaded(
            CachedView { bytes, mime: mime_of(platform, path), brotli: false },
        ),
        (LoadView::ReadFile, ReplyView::Contents(None)) => LoadView::Missing,
        _ => load,
    }
}

/// The cache after a disk operation: a file that has just been loaded is put into it.
pub open spec fn cache_advanced(
    platform: Platform,
    cache: CacheView,
    path: Seq<u8>,
    load: LoadView,
    reply: ReplyView,
) -> CacheView {
    match (load, load_advanced(platform, path, load, reply)) {
        (LoadView::Loaded(_), _) => cache,
        (_, LoadView::Loaded(file)) => cache.insert(components_of(platform, path), file),
        _ => cache,
    }
}

/// Begins to load the file at `path`.
pub fn begin_load(
    platform: Platform,
    cache: &FileCache,
    path: &PathBuf,
    accepts_brotli: bool,
) -> (r: Load)
    ensures
        r@ == load_begun(cache@, components_of(platform, path_bytes(*path)), accepts_brotli),
{
    match cache.get(&split(platform, path)) {
        Some(file) => Load::Loaded(file.copy()),
        None => if accepts_brotli {
            Load::CheckSibling
        } else {
            Load::ReadFile
        },
    }
}

/// The path that the load needs next, or `None` where it is done.
pub fn pending_path(load: &Load, path: &PathBuf) -> (r: Option<PathBuf>)
    ensures
        match load@ {
            LoadView::CheckSibling | LoadView::ReadSibling => r is Some && path_bytes(r->0)
                == sibling(path_bytes(*path)),
            LoadView::ReadFile => r is Some && path_bytes(r->0) == path_bytes(*path),
            _ => r is None,
        },
{
    match load {
        Load::CheckSibling | Load::ReadSibling => Some(append(path, ".br")),
        Load::ReadFile => Some(path.clone()),
        _ => None,
    }
}

/// Goes on with the load of the file at `path` after a disk operation.
pub fn advance_load(
    platform: Platform,
    cache: &mut FileCache,
    path: &PathBuf,
    load: Load,
    reply: Reply,
) -> (r: Load)
    ensures
        r@ == load_advanced(platform, path_bytes(*path), load@, reply@),
        final(cache)@ == cache_advanced(platform, old(cache)@, path_bytes(*path), load@, reply@),
{
    match (load, reply) {
        (Load::CheckSibling, Reply::IsFile(yes)) => if yes {
            Load::ReadSibling
        } else {
            Load::ReadFile
        },
        (Load::ReadSibling, Reply::Contents(Some(bytes))) => store(
            platform,
            cache,
            path,
            bytes,
            true,
        ),
        (Load::ReadSibling, Reply::Contents(None)) => Load::ReadFile,
        (Load::ReadFile, Reply::Contents(Some(bytes))) => store(
            platform,
            cache,
            path,
            bytes,
            false,
        ),
        (Load::ReadFile, Reply::Contents(None)) => Load::Missing,
        (load, _) => load,
    }
}

/// Puts a file that has just been read into the cache.
fn store(
    platform: Platform,
    cache: &mut FileCache,
    path: &PathBuf,
    bytes: Vec<u8>,
    brotli: bool,
) -> (r: Load)
    ensures
        ({
            let at = path_bytes(*path);
            let file = CachedView { bytes: bytes@, mime: mime_of(platform, at), brotli };
            &&& r@ == LoadView::Loaded(file)
            &&& final(cache)@ == old(cache)@.insert(components_of(platform, at), file)
        }),
{
    let file = CachedFile { bytes, mime: mime_from_extension(platform, path), brotli };
    let copy = file.copy();
    cache.insert(split(platform, path), file);
    Load::Loaded(copy)
}

/// A disk that does not change: which paths are files, and what they hold.
pub struct Disk {
    pub is_file: spec_fn(Seq<u8>) -> bool,
    pub contents: spec_fn(Seq<u8>) -> Option<Seq<u8>>,
}

/// What the disk replies to the operation that the load asks for.
pub open spec fn disk_reply(disk: Disk, path: Seq<u8>, load: LoadView) -> ReplyView {
    match load {
        LoadView::CheckSibling => ReplyView::IsFile((disk.is_file)(sibling(path))),
        LoadView::ReadSibling => ReplyView::Contents((disk.contents)(sibling(path))),
        _ => ReplyView::Contents((disk.contents)(path)),
    }
}

/// The load is done.
pub open spec fn load_done(load: LoadView) -> bool {
    load is Loaded || load is Missing
}

/// How many disk operations are left at most.
pub open spec fn load_left(load: LoadView) -> nat {
    match load {
        LoadView::CheckSibling => 3,
        LoadView::ReadSibling => 2,
        LoadView::ReadFile => 1,
        _ => 0,
    }
}

/// The load and the cache once the disk has replied to every operation.
pub open spec fn load_run(
    platform: Platform,
    disk: Disk,
    cache: CacheView,
    path: Seq<u8>,
    load: LoadView,
) -> (LoadView, CacheView)
    decreases load_left(load),
{
    if load_done(load) {
        (load, cache)
    } else {
        let reply = disk_reply(disk, path, load);
        load_run(
            platform,
            disk,
            cache_advanced(platform, cache, path, load, reply),
            path,
            load_advanced(platform, path, load, reply),
        )
    }
}

/// The file that a load brings: the one in the cache, else the pre-compressed sibling
/// where the client takes Brotli and the sibling is a file that can be read, else the
/// file itself where it can be read.
pub open spec fn loaded(
    platform: Platform,
    disk: Disk,
    cache: CacheView,
    path: Seq<u8>,
    brotli: bool,
) -> Option<CachedView> {
    let key = components_of(platform, path);
    let compressed = (disk.contents)(sibling(path));
    if cache.contains_key(key) {
        Some(cache[key])
    } else if brotli && (disk.is_file)(sibling(path)) && compressed is Some {
        Some(CachedView { bytes: compressed->0, mime: mime_of(platform, path), brotli: true })
    } else {
        match (disk.contents)(path) {
            Some(bytes) => Some(CachedView { bytes, mime: mime_of(platform, path), brotli: false }),
            None => None,
        }
    }
}

/// The cache after a load: what was loaded is in it, and nothing else has changed.
pub open spec fn cache_after(
    cache: CacheView,
    key: Seq<ComponentView>,
    file: Option<CachedView>,
) -> CacheView {
    match file {
        Some(file) => cache.insert(key, file),
        None => cache,
    }
}

/// A load that runs to its end brings the file that [`loaded`] tells, and keeps it.
pub proof fn load_brings_the_file(
    platform: Platform,
    disk: Disk,
    cache: CacheView,
    path: Seq<u8>,
    brotli: bool,
)
    ensures
        ({
            let key = components_of(platform, path);
            let file = loaded(platform, disk, cache, path, brotli);
            let end = load_run(platform, disk, cache, path, load_begun(cache, key, brotli));
            &&& end.0 == match file {
                Some(file) => LoadView::Loaded(file),
                None => LoadView::Missing,
            }
            &&& end.1 == cache_after(cache, key, file)
        }),
{
    reveal_with_fuel(load_run, 4);
    let key = components_of(platform, path);
    if cache.contains_key(key) {
        assert(cache.insert(key, cache[key]) =~= cache);
    }
}

/// A file that was loaded once is answered from memory from then on, with no disk
/// operation, whatever the disk holds by then and whichever encodings the client takes.
pub proof fn second_load_reads_nothing(
    platform: Platform,
    disk: Disk,
    cache: CacheView,
    path: Seq<u8>,
    brotli: bool,
    brotli_later: bool,
)
    requires
        loaded(platform, disk, cache, path, brotli) is Some,
    ensures
        ({
            let key = components_of(platform, path);
            let file = loaded(platform, disk, cache, path, brotli);
            let end = load_run(platform, disk, cache, path, load_begun(cache, key, brotli));
            load_begun(end.1, key, brotli_later) == LoadView::Loaded(file->0)
        }),
{
    load_brings_the_file(platform, disk, cache, path, brotli);
}

/// A client that does not take Brotli is never the reason for compressed content: what
/// its load reads from disk is the file itself.
pub proof fn plain_client_loads_plain_content(
    platform: Platform,
    disk: Disk,
    cache: CacheView,
    path: Seq<u8>,
)
    requires
        !cache.contains_key(components_of(platform, path)),
    ensures
        loaded(platform, disk, cache, path, false) matches Some(file) ==> !file.brotli
            && (disk.contents)(path) == Some(file.bytes),
{
}

/// What a load brings and what it keeps. A file that is in the cache comes from there. Of a
/// file that is not, a client that takes Brotli gets what the file with `.br` behind its
/// path holds, where that is a file that can be read; in all other cases what comes is what
/// the file itself holds, or nothing. Compressed or not, its type is that of the requested
/// path, and what came is kept under the path's components.
pub proof fn loads_bring_what_is_on_disk(
    platform: Platform,
    disk: Disk,
    cache: CacheView,
    path: Seq<u8>,
    brotli: bool,
)
    ensures
        ({
            let key = components_of(platform, path);
            let compressed = path + seq![0x2eu8, 0x62u8, 0x72u8];
            let (load, kept) = load_run(
                platform,
                disk,
                cache,
                path,
                load_begun(cache, key, brotli),
            );
            if cache.contains_key(key) {
                load == LoadView::Loaded(cache[key]) && kept == cache
            } else if brotli && (disk.is_file)(compressed) && (disk.contents)(compressed) is Some {
                &&& load matches LoadView::Loaded(file)
                &&& file.bytes == (disk.contents)(compressed)->0
                &&& file.mime == mime_of(platform, path)
                &&& file.brotli
                &&& kept == cache.insert(key, file)
            } else if (disk.contents)(path) is Some {
                &&& load matches LoadView::Loaded(file)
                &&& file.bytes == (disk.contents)(path)->0
                &&& file.mime == mime_of(platform, path)
                &&& !file.brotli
                &&& kept == cache.insert(key, file)
            } else {
                load == LoadView::Missing && kept == cache
            }
        }),
{
    lemma_br_bytes();
    load_brings_the_file(platform, disk, cache, path, brotli);
    let key = components_of(platform, path);
    if cache.contains_key(key) {
        assert(cache.insert(key, cache[key]) =~= cache);
    }
}

/// What a load brings from disk has the type of the requested path, whether the client
/// takes Brotli or not; and where it is compressed, it is what the sibling holds.
pub proof fn compression_does_not_change_the_type(
    platform: Platform,
    disk: Disk,
    cache: CacheView,
    path: Seq<u8>,
    brotli: bool,
)
    requires
        !cache.contains_key(components_of(platform, path)),
    ensures
        loaded(platform, disk, cache, path, brotli) matches Some(file) ==> {
            &&& file.mime == mime_of(platform, path)
            &&& file.brotli ==> brotli && (disk.contents)(path + seq![0x2eu8, 0x62u8, 0x72u8])
                == Some(file.bytes)
            &&& !file.brotli ==> (disk.contents)(path) == Some(file.bytes)
        },
{
    lemma_br_bytes();
}

/// A disk operation that the load did not ask for changes neither the load nor the cache.
pub proof fn unasked_replies_change_nothing(
    platform: Platform,
    cache: CacheView,
    path: Seq<u8>,
    load: LoadView,
    reply: ReplyView,
)
    requires
        (load is CheckSibling) != (reply is IsFile) || load is Loaded || load is Missing,
    ensures
        load_advanced(platform, path, load, reply) == load,
        cache_advanced(platform, cache, path, load, reply) == cache,
{
}

/// A file that was read is what the load brings, and it is put into the cache whatever is
/// there by then. A sibling that is no file or cannot be read leaves the file itself to be
/// read, and where that cannot be read either, there is none.
pub proof fn what_was_read_is_brought_and_kept(
    platform: Platform,
    cache: CacheView,
    path: Seq<u8>,
    bytes: Seq<u8>,
)
    ensures
        ({
            let key = components_of(platform, path);
            let mime = mime_of(platform, path);
            let read = ReplyView::Contents(Some(bytes));
            let failed = ReplyView::Contents(None);
            let packed = CachedView { bytes, mime, brotli: true };
            let plain = CachedView { bytes, mime, brotli: false };
            &&& load_advanced(platform, path, LoadView::ReadSibling, read) == LoadView::Loaded(packed)
            &&& cache_advanced(platform, cache, path, LoadView::ReadSibling, read) == cache.insert(
                key,
                packed,
            )
            &&& load_advanced(platform, path, LoadView::ReadFile, read) == LoadView::Loaded(plain)
            &&& cache_advanced(platform, cache, path, LoadView::ReadFile, read) == cache.insert(
                key,
                plain,
            )
            &&& load_advanced(platform, path, LoadView::ReadSibling, failed) is ReadFile
            &&& load_advanced(platform, path, LoadView::ReadFile, failed) is Missing
            &&& load_advanced(platform, path, LoadView::CheckSibling, ReplyView::IsFile(true)) is ReadSibling
            &&& load_advanced(platform, path, LoadView::CheckSibling, ReplyView::IsFile(false)) is ReadFile
            &&& cache_advanced(platform, cache, path, LoadView::ReadSibling, failed) == cache
            &&& cache_advanced(platform, cache, path, LoadView::ReadFile, failed) == cache
            &&& forall|yes: bool| #[trigger]
                cache_advanced(
                    platform,
                    cache,
                    path,
                    LoadView::CheckSibling,
                    ReplyView::IsFile(yes),
                ) == cache
        }),
{
}

} // verus!
