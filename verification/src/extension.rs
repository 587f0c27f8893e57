//! Requests for `/Extension/<absolute path>`: which file they mean, and whether it lies
//! below a root that may be served.
//!
//! A [`Resolve`] asks for one path after the other to be made canonical. [`advance_resolve`]
//! takes what came of each.

use std::borrow::Cow;
use std::path::PathBuf;
use vstd::prelude::*;

use crate::decode::{
    as_chars, decoding_undoes_partial_escaping, escape_chosen, url_decode, url_decoded,
};
use crate::mime::text_bytes;
use crate::path::{
    components_of, descends, dot, dot_dot, kept, only_descends, path_bytes, pieces,
    split, unix_components, ComponentView, Platform,
};
use crate::text::{chars_of, text_between};

verus! {

/// The bytes in an optional path.
pub open spec fn bytes_in(path: Option<PathBuf>) -> Option<Seq<u8>> {
    match path {
        Some(path) => Some(path_bytes(path)),
        None => None,
    }
}

/// The request is for an extension's file.
pub open spec fn is_extension_path(path: Seq<char>) -> bool {
    "/Extension/"@.is_prefix_of(path)
}

/// The absolute path that decoded text stands for. The slash that an absolute path starts
/// with is part of the URL's own structure, so it is put back; a path with a drive letter
/// has none.
pub open spec fn absolute(platform: Platform, decoded: Seq<char>) -> Seq<char> {
    if platform.is_windows() && decoded.len() > 1 && decoded[1] == ':' {
        decoded
    } else {
        seq!['/'] + decoded
    }
}

/// The text of the file's path that a request path names.
pub open spec fn named_file(platform: Platform, path: Seq<char>) -> Seq<char> {
    absolute(platform, url_decoded(path.skip("/Extension/"@.len() as int)))
}

/// The bytes of the file's path that a request path names, or `None` where it names none
/// or where the path leads upwards.
pub open spec fn candidate(platform: Platform, path: Seq<char>) -> Option<Seq<u8>> {
    let file = text_bytes(named_file(platform, path));
    if is_extension_path(path) && only_descends(components_of(platform, file)) {
        Some(file)
    } else {
        None
    }
}

/// Whether a request path is for an extension's file.
pub fn is_extension_request(path: &str) -> (r: bool)
    ensures
        r == is_extension_path(path@),
{
    crate::text::starts_with(path, "/Extension/")
}

/// The absolute path that decoded text stands for.
pub fn absolute_text(platform: Platform, decoded: &str) -> (r: String)
    ensures
        r@ == absolute(platform, decoded@),
{
    let chars = chars_of(decoded);
    if platform.has_drives() && chars.len() > 1 && chars[1] == ':' {
        decoded.to_owned()
    } else {
        let mut text = String::new();
        text.push('/');
        text.append(decoded);
        assert(text@ == seq!['/'] + decoded@);
        text
    }
}

/// The file that a request path names.
pub fn extension_candidate(platform: Platform, path: &str) -> (r: Option<PathBuf>)
    ensures
        bytes_in(r) == candidate(platform, path@),
{
    if !is_extension_request(path) {
        return None;
    }
    let chars = chars_of(path);
    let prefix = chars_of("/Extension/");
    let stripped = text_between(&chars, prefix.len(), chars.len());
    assert(stripped@ == path@.skip("/Extension/"@.len() as int));
    let text = match url_decode(stripped.as_str()) {
        Cow::Borrowed(decoded) => absolute_text(platform, decoded),
        Cow::Owned(decoded) => absolute_text(platform, decoded.as_str()),
    };
    let file = PathBuf::from(text);
    if descends(&split(platform, &file)) {
        Some(file)
    } else {
        None
    }
}

/// The file lies below the root: its path begins with the root's components.
pub open spec fn lies_below(platform: Platform, file: Seq<u8>, root: Seq<u8>) -> bool {
    components_of(platform, root).is_prefix_of(components_of(platform, file))
}

/// How far the resolution of a request path has got.
pub enum Resolve {
    /// The file that the request names has to be made canonical.
    Candidate(PathBuf),
    /// The file is canonical; so has to be the root with the number `next`.
    Root { file: PathBuf, next: usize },
    /// The file may be served.
    Found(PathBuf),
    /// The request names nothing that may be served.
    Refused,
}

/// What a [`Resolve`] holds.
#[verifier::ext_equal]
pub enum ResolveView {
    Candidate(Seq<u8>),
    Root { file: Seq<u8>, next: nat },
    Found(Seq<u8>),
    Refused,
}

impl View for Resolve {
    type V = ResolveView;

    open spec fn view(&self) -> ResolveView {
        match self {
            Resolve::Candidate(file) => ResolveView::Candidate(path_bytes(*file)),
            Resolve::Root { file, next } => ResolveView::Root {
                file: path_bytes(*file),
                next: *next as nat,
            },
            Resolve::Found(file) => ResolveView::Found(path_bytes(*file)),
            Resolve::Refused => ResolveView::Refused,
        }
    }
}

/// The resolution of a request path as it begins.
pub open spec fn resolve_begun(platform: Platform, path: Seq<char>) -> ResolveView {
    match candidate(platform, path) {
        Some(file) => ResolveView::Candidate(file),
        None => ResolveView::Refused,
    }
}

/// The resolution with the roots up to `next` looked at: refused where there are no more.
pub open spec fn at_root(root_count: nat, file: Seq<u8>, next: nat) -> ResolveView {
    if next < root_count {
        ResolveView::Root { file, next }
    } else {
        ResolveView::Refused
    }
}

/// The resolution after a path was made canonical, or could not be.
pub open spec fn resolve_advanced(
    platform: Platform,
    root_count: nat,
    resolve: ResolveView,
    canonical: Option<Seq<u8>>,
) -> ResolveView {
    match resolve {
        ResolveView::Candidate(_) => match canonical {
            Some(file) => at_root(root_count, file, 0),
            None => ResolveView::Refused,
        },
        ResolveView::Root { file, next } => match canonical {
            Some(root) => if lies_below(platform, file, root) {
                ResolveView::Found(file)
            } else {
                at_root(root_count, file, next + 1)
            },
            None => at_root(root_count, file, next + 1),
        },
        _ => resolve,
    }
}

/// Begins to resolve a request path.
pub fn begin_resolve(platform: Platform, path: &str) -> (r: Resolve)
    ensures
        r@ == resolve_begun(platform, path@),
{
    match extension_candidate(platform, path) {
        Some(file) => Resolve::Candidate(file),
        None => Resolve::Refused,
    }
}

fn first_root(root_count: usize, file: PathBuf) -> (r: Resolve)
    ensures
        r@ == at_root(root_count as nat, path_bytes(file), 0),
{
    if root_count > 0 {
        Resolve::Root { file, next: 0 }
    } else {
        Resolve::Refused
    }
}

fn root_after(root_count: usize, file: PathBuf, number: usize) -> (r: Resolve)
    ensures
        r@ == at_root(root_count as nat, path_bytes(file), number as nat + 1),
{
    if number < root_count && number + 1 < root_count {
        Resolve::Root { file, next: number + 1 }
    } else {
        Resolve::Refused
    }
}

/// Goes on after a path was made canonical, or could not be.
pub fn advance_resolve(
    platform: Platform,
    root_count: usize,
    resolve: Resolve,
    canonical: Option<PathBuf>,
) -> (r: Resolve)
    ensures
        r@ == resolve_advanced(platform, root_count as nat, resolve@, bytes_in(canonical)),
{
    match resolve {
        Resolve::Candidate(_) => match canonical {
            Some(file) => first_root(root_count, file),
            None => Resolve::Refused,
        },
        Resolve::Root { file, next } => match canonical {
            Some(root) => {
                if crate::path::starts_with(&split(platform, &file), &split(platform, &root)) {
                    Resolve::Found(file)
                } else {
                    root_after(root_count, file, next)
                }
            },
            None => root_after(root_count, file, next),
        },
        other => other,
    }
}

/// How many paths have to be made canonical at most.
pub open spec fn resolve_left(root_count: nat, resolve: ResolveView) -> nat {
    match resolve {
        ResolveView::Candidate(_) => root_count + 2,
        ResolveView::Root { file, next } => if next < root_count {
            (root_count - next) as nat + 1
        } else {
            1
        },
        _ => 0,
    }
}

/// The file that the resolution ends with, where `canonical` tells what each path is when
/// made canonical.
pub open spec fn resolve_run(
    platform: Platform,
    roots: Seq<Seq<u8>>,
    canonical: spec_fn(Seq<u8>) -> Option<Seq<u8>>,
    resolve: ResolveView,
) -> Option<Seq<u8>>
    decreases resolve_left(roots.len(), resolve),
{
    match resolve {
        ResolveView::Candidate(file) => resolve_run(
            platform,
            roots,
            canonical,
            resolve_advanced(platform, roots.len(), resolve, canonical(file)),
        ),
        ResolveView::Root { file, next } => resolve_run(
            platform,
            roots,
            canonical,
            resolve_advanced(platform, roots.len(), resolve, canonical(roots[next as int])),
        ),
        ResolveView::Found(file) => Some(file),
        ResolveView::Refused => None,
    }
}

/// The canonical form of the root is there, and the file lies below it.
pub open spec fn root_holds(
    platform: Platform,
    canonical: spec_fn(Seq<u8>) -> Option<Seq<u8>>,
    root: Seq<u8>,
    file: Seq<u8>,
) -> bool {
    canonical(root) is Some && lies_below(platform, file, canonical(root)->0)
}

/// The file that a request path may be served: the canonical form of the file that it
/// names, where that lies below one of the roots.
pub open spec fn resolved(
    platform: Platform,
    roots: Seq<Seq<u8>>,
    canonical: spec_fn(Seq<u8>) -> Option<Seq<u8>>,
    path: Seq<char>,
) -> Option<Seq<u8>> {
    match candidate(platform, path) {
        Some(named) => match canonical(named) {
            Some(file) => if exists|i: int|
                0 <= i < roots.len() && root_holds(platform, canonical, #[trigger] roots[i], file) {
                Some(file)
            } else {
                None
            },
            None => None,
        },
        None => None,
    }
}

/// A resolution that runs to its end gives the file that [`resolved`] tells: one below a
/// root, or none.
pub proof fn resolution_finds_the_file(
    platform: Platform,
    roots: Seq<Seq<u8>>,
    canonical: spec_fn(Seq<u8>) -> Option<Seq<u8>>,
    path: Seq<char>,
)
    ensures
        resolve_run(platform, roots, canonical, resolve_begun(platform, path)) == resolved(
            platform,
            roots,
            canonical,
            path,
        ),
{
    match candidate(platform, path) {
        Some(named) => {
            match canonical(named) {
                Some(file) => {
                    lemma_roots_from(platform, roots, canonical, file, 0);
                },
                None => {
                    reveal_with_fuel(resolve_run, 2);
                },
            }
        },
        None => {},
    }
}

proof fn lemma_roots_from(
    platform: Platform,
    roots: Seq<Seq<u8>>,
    canonical: spec_fn(Seq<u8>) -> Option<Seq<u8>>,
    file: Seq<u8>,
    next: nat,
)
    requires
        next <= roots.len(),
    ensures
        resolve_run(platform, roots, canonical, at_root(roots.len(), file, next)) == if exists|
            i: int,
        |
            next <= i < roots.len() && root_holds(platform, canonical, #[trigger] roots[i], file) {
            Some(file)
        } else {
            None
        },
    decreases roots.len() - next,
{
    if next < roots.len() {
        lemma_roots_from(platform, roots, canonical, file, next + 1);
        reveal_with_fuel(resolve_run, 2);
        if root_holds(platform, canonical, roots[next as int], file) {
        } else {
            assert forall|i: int|
                next <= i < roots.len() && root_holds(
                    platform,
                    canonical,
                    #[trigger] roots[i],
                    file,
                ) implies next + 1 <= i by {}
        }
    }
}

/// What is served lies below a root, and its request does not lead upwards.
pub proof fn nothing_outside_the_roots_is_resolved(
    platform: Platform,
    roots: Seq<Seq<u8>>,
    canonical: spec_fn(Seq<u8>) -> Option<Seq<u8>>,
    path: Seq<char>,
)
    ensures
        resolve_run(platform, roots, canonical, resolve_begun(platform, path)) matches Some(file)
            ==> {
            &&& is_extension_path(path)
            &&& only_descends(components_of(platform, text_bytes(named_file(platform, path))))
            &&& canonical(text_bytes(named_file(platform, path))) == Some(file)
            &&& exists|i: int|
                0 <= i < roots.len() && root_holds(platform, canonical, #[trigger] roots[i], file)
        },
{
    resolution_finds_the_file(platform, roots, canonical, path);
}

/// Where paths are written with slashes, a request is refused before any file is looked at
/// exactly where one of the names in its decoded path is `..`.
pub proof fn parent_names_are_refused(platform: Platform, path: Seq<char>)
    requires
        platform.is_unix(),
        is_extension_path(path),
    ensures
        resolve_begun(platform, path) is Refused <==> pieces(
            text_bytes(named_file(platform, path)),
        ).contains(dot_dot()),
{
    let decoded = url_decoded(path.skip("/Extension/"@.len() as int));
    let text = named_file(platform, path);
    let bytes = text_bytes(text);
    assert(text[0] == '/');
    assert(bytes[0] == 0x2f) by {
        assert((0x2fu32 & 0x7f) as u8 == 0x2f) by (bit_vector);
        assert(bytes == vstd::utf8::encode_scalar(0x2f) + vstd::utf8::encode_utf8(
            text.drop_first(),
        ));
    }
    lemma_kept_parents(pieces(bytes));
    let components = unix_components(bytes);
    let names = kept(pieces(bytes));
    assert(components == seq![ComponentView::RootDir] + names);
    if pieces(bytes).contains(dot_dot()) {
        let i = choose|i: int| 0 <= i < names.len() && names[i] is ParentDir;
        assert(components[i + 1] is ParentDir);
    } else {
        assert forall|i: int| 0 <= i < components.len() implies !(#[trigger] components[i] is CurDir)
            && !(components[i] is ParentDir) by {
            if i > 0 {
                assert(components[i] == names[i - 1]);
            }
        }
    }
}

proof fn lemma_kept_parents(parts: Seq<Seq<u8>>)
    ensures
        forall|i: int| 0 <= i < kept(parts).len() ==> !(#[trigger] kept(parts)[i] is CurDir),
        parts.contains(dot_dot()) <==> exists|i: int|
            0 <= i < kept(parts).len() && #[trigger] kept(parts)[i] is ParentDir,
    decreases parts.len(),
{
    if parts.len() > 0 {
        let front = parts.drop_last();
        let part = parts.last();
        lemma_kept_parents(front);
        assert(parts == front.push(part));
        if front.contains(dot_dot()) {
            let i = choose|i: int| 0 <= i < kept(front).len() && kept(front)[i] is ParentDir;
            assert(kept(parts)[i] is ParentDir);
            let j = choose|j: int| 0 <= j < front.len() && front[j] == dot_dot();
            assert(parts[j] == dot_dot());
        }
        if part == dot_dot() {
            assert(parts[parts.len() - 1] == dot_dot());
            assert(dot().len() != dot_dot().len());
            assert(kept(parts)[kept(front).len() as int] is ParentDir);
        }
        if parts.contains(dot_dot()) && part != dot_dot() {
            let j = choose|j: int| 0 <= j < parts.len() && parts[j] == dot_dot();
            assert(front[j] == dot_dot());
        }
    }
}

/// A request is for an extension's file exactly where its path begins with `/Extension/`,
/// and the file that it names is what follows, decoded, behind the slash that absolute
/// paths start with. Only on Windows a drive letter takes the place of that slash.
pub proof fn extension_path_names_what_follows(platform: Platform, rest: Seq<char>)
    ensures
        is_extension_path("/Extension/"@ + rest),
        named_file(platform, "/Extension/"@ + rest) == if platform.is_windows() && url_decoded(
            rest,
        ).len() > 1 && url_decoded(rest)[1] == ':' {
            url_decoded(rest)
        } else {
            seq!['/'] + url_decoded(rest)
        },
        forall|path: Seq<char>| #[trigger]
            is_extension_path(path) ==> path == "/Extension/"@ + path.skip("/Extension/"@.len() as int),
{
    let path = "/Extension/"@ + rest;
    assert("/Extension/"@ =~= path.subrange(0, "/Extension/"@.len() as int));
    assert(path.skip("/Extension/"@.len() as int) == rest);
    assert forall|path: Seq<char>| #[trigger] is_extension_path(path) implies path
        == "/Extension/"@ + path.skip("/Extension/"@.len() as int) by {
        assert(path =~= "/Extension/"@ + path.skip("/Extension/"@.len() as int));
    }
}

/// Where paths are written with slashes, every absolute ASCII path can be asked for: its
/// request names it, with all its letters as they are, whichever of its characters are
/// escaped.
pub proof fn every_absolute_path_can_be_named(platform: Platform, file: Seq<u8>, chosen: Seq<bool>)
    requires
        platform.is_unix(),
        file.len() == chosen.len(),
        forall|i: int| 0 <= i < file.len() ==> #[trigger] file[i] < 0x80,
        forall|i: int| 0 <= i < file.len() && #[trigger] file[i] == 0x25 ==> chosen[i],
    ensures
        text_bytes(
            named_file(platform, "/Extension/"@ + as_chars(escape_chosen(file, chosen))),
        ) == seq![0x2fu8] + file,
{
    let rest = as_chars(escape_chosen(file, chosen));
    decoding_undoes_partial_escaping(file, chosen);
    extension_path_names_what_follows(platform, rest);
    let text = seq!['/'] + as_chars(file);
    assert(vstd::utf8::is_ascii_chars(text));
    vstd::utf8::is_ascii_chars_encode_utf8(text);
    assert(text_bytes(text) =~= seq![0x2fu8] + file);
}

/// A file is resolved wherever it lies below a root, at any depth: the components of the
/// root's canonical form begin those of the file's, and no other root matters.
pub proof fn files_below_a_root_are_resolved(
    platform: Platform,
    roots: Seq<Seq<u8>>,
    canonical: spec_fn(Seq<u8>) -> Option<Seq<u8>>,
    path: Seq<char>,
    file: Seq<u8>,
    i: int,
)
    requires
        "/Extension/"@.is_prefix_of(path),
        forall|j: int|
            0 <= j < components_of(platform, text_bytes(named_file(platform, path))).len() ==> !(
            #[trigger] components_of(platform, text_bytes(named_file(platform, path)))[j] is CurDir)
                && !(components_of(platform, text_bytes(named_file(platform, path)))[j] is ParentDir),
        canonical(text_bytes(named_file(platform, path))) == Some(file),
        0 <= i < roots.len(),
        canonical(roots[i]) is Some,
        components_of(platform, canonical(roots[i])->0).is_prefix_of(components_of(platform, file)),
    ensures
        resolve_run(platform, roots, canonical, resolve_begun(platform, path)) == Some(file),
        resolved(platform, roots, canonical, path) == Some(file),
{
    resolution_finds_the_file(platform, roots, canonical, path);
    assert(root_holds(platform, canonical, roots[i], file));
}

/// A file is refused where no root's canonical form begins its canonical path, and so is a
/// request for no extension's file, one that leads upwards and one whose file has no
/// canonical path.
pub proof fn files_below_no_root_are_refused(
    platform: Platform,
    roots: Seq<Seq<u8>>,
    canonical: spec_fn(Seq<u8>) -> Option<Seq<u8>>,
    path: Seq<char>,
)
    requires
        ({
            let named = text_bytes(named_file(platform, path));
            ||| !"/Extension/"@.is_prefix_of(path)
            ||| components_of(platform, named).contains(ComponentView::CurDir)
            ||| components_of(platform, named).contains(ComponentView::ParentDir)
            ||| canonical(named) is None
            ||| forall|i: int|
                0 <= i < roots.len() ==> canonical(#[trigger] roots[i]) is None || !components_of(
                    platform,
                    canonical(roots[i])->0,
                ).is_prefix_of(components_of(platform, canonical(named)->0))
        }),
    ensures
        resolve_run(platform, roots, canonical, resolve_begun(platform, path)) is None,
        resolved(platform, roots, canonical, path) is None,
{
    resolution_finds_the_file(platform, roots, canonical, path);
}

/// The file that a request names is made canonical first, and refused where that fails.
/// Then each root is tried in turn. The file is found at the first whose canonical form begins
/// its path; a root without one is passed over; and after the last root the request is
/// refused.
pub proof fn each_root_is_tried_in_turn(
    platform: Platform,
    root_count: nat,
    named: Seq<u8>,
    file: Seq<u8>,
    next: nat,
    root: Seq<u8>,
)
    requires
        next < root_count,
    ensures
        ({
            let at = ResolveView::Root { file, next };
            let passed = if next + 1 < root_count {
                ResolveView::Root { file, next: next + 1 }
            } else {
                ResolveView::Refused
            };
            &&& resolve_advanced(platform, root_count, at, None) == passed
            &&& resolve_advanced(platform, root_count, at, Some(root)) == if components_of(
                platform,
                root,
            ).is_prefix_of(components_of(platform, file)) {
                ResolveView::Found(file)
            } else {
                passed
            }
            &&& resolve_advanced(platform, root_count, ResolveView::Candidate(named), None) is Refused
            &&& resolve_advanced(
                platform,
                root_count,
                ResolveView::Candidate(named),
                Some(file),
            ) == (ResolveView::Root { file, next: 0 })
        }),
{
}

} // verus!
