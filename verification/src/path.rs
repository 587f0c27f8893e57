//! Filesystem paths: their bytes, the components that they are read as, and how they are
//! joined and compared.
//!
//! The text of a path is kept by `std::path::PathBuf`. What the server decides about a
//! path it decides about its components, as `std::path::Path::components` gives them on
//! the platform at hand.

use std::path::PathBuf;
use vstd::prelude::*;

use crate::text::{same_bytes, same_text};

verus! {

/// `std::path::PathBuf`, of which only [`path_bytes`] is known.
#[verifier::external_type_specification]
#[verifier::external_body]
pub struct ExPathBuf(std::path::PathBuf);

/// The bytes of a path's text, as `OsStr::as_encoded_bytes` gives them: UTF-8 where the
/// text is Unicode.
pub uninterp spec fn path_bytes(path: PathBuf) -> Seq<u8>;

/// The components that `Path::components` reads in a path with these bytes where the
/// main separator is a backslash: with drive letters and other prefixes, and with two
/// separators.
pub uninterp spec fn windows_components(bytes: Seq<u8>) -> Seq<ComponentView>;

/// The bytes of the path that `Path::join` makes of two paths with these bytes where the
/// main separator is a backslash.
pub uninterp spec fn windows_join(base: Seq<u8>, tail: Seq<u8>) -> Seq<u8>;

/// `PathBuf::from(String)` keeps the text of the string.
pub assume_specification[ <PathBuf as From<String>>::from ](text: String) -> (r: PathBuf)
    ensures
        path_bytes(r) == vstd::utf8::encode_utf8(text@),
;

/// A copy of a path is the same path.
pub assume_specification[ <PathBuf as Clone>::clone ](path: &PathBuf) -> (r: PathBuf)
    ensures
        r == *path,
;

/// How paths are written on the machine that the program runs on.
///
/// [`Platform::current`] is the only source of a value, so each value tells the truth
/// about the `std::path` functions that the process was linked with.
#[derive(Clone, Copy)]
pub struct Platform {
    separator: char,
}

impl Platform {
    /// The main separator is a backslash.
    pub closed spec fn is_windows(self) -> bool {
        self.separator == '\\'
    }

    /// The main separator is not a backslash: paths are written with slashes.
    pub open spec fn is_unix(self) -> bool {
        !self.is_windows()
    }

    /// The platform that the program runs on. The machine decides which one that is, so
    /// nothing is claimed of it here; `of_separator` says what each separator stands for.
    pub fn current() -> Platform {
        Platform::of_separator(main_separator())
    }

    /// The platform with this main separator. Private, so that no value can be made but
    /// of the separator that the machine has.
    fn of_separator(separator: char) -> (r: Platform)
        ensures
            r.is_windows() == (separator == '\\'),
            r.is_unix() == (separator != '\\'),
    {
        Platform { separator }
    }

    /// Whether paths may start with a drive letter.
    pub fn has_drives(self) -> (r: bool)
        ensures
            r == self.is_windows(),
    {
        self.separator == '\\'
    }
}

/// `std::path::MAIN_SEPARATOR`: the machine decides what it is, so nothing is claimed.
#[verifier::external_body]
fn main_separator() -> char {
    std::path::MAIN_SEPARATOR
}

/// One component of a path.
pub enum PathComponent {
    /// A Windows prefix, such as a drive letter, in the debug form of its kind.
    Prefix(String),
    /// The root directory.
    RootDir,
    /// A leading `.`.
    CurDir,
    /// A `..`.
    ParentDir,
    /// A name.
    Normal(Vec<u8>),
}

/// What a [`PathComponent`] holds.
#[verifier::ext_equal]
pub enum ComponentView {
    Prefix(Seq<char>),
    RootDir,
    CurDir,
    ParentDir,
    Normal(Seq<u8>),
}

impl View for PathComponent {
    type V = ComponentView;

    open spec fn view(&self) -> ComponentView {
        match self {
            PathComponent::Prefix(kind) => ComponentView::Prefix(kind@),
            PathComponent::RootDir => ComponentView::RootDir,
            PathComponent::CurDir => ComponentView::CurDir,
            PathComponent::ParentDir => ComponentView::ParentDir,
            PathComponent::Normal(name) => ComponentView::Normal(name@),
        }
    }
}

/// What a list of components holds.
pub open spec fn views(components: Seq<PathComponent>) -> Seq<ComponentView> {
    components.map_values(|c: PathComponent| c@)
}

/// The parts of `bytes` between its slashes: one more part than there are slashes.
pub open spec fn pieces(bytes: Seq<u8>) -> Seq<Seq<u8>>
    decreases bytes.len(),
{
    if bytes.len() == 0 {
        seq![Seq::<u8>::empty()]
    } else {
        let before = pieces(bytes.drop_last());
        if bytes.last() == 0x2f {
            before.push(Seq::<u8>::empty())
        } else {
            before.drop_last().push(before.last().push(bytes.last()))
        }
    }
}

/// The name `.`.
pub open spec fn dot() -> Seq<u8> {
    seq![0x2eu8]
}

/// The name `..`.
pub open spec fn dot_dot() -> Seq<u8> {
    seq![0x2eu8, 0x2eu8]
}

/// The components that the parts of a path stand for: none for an empty part or a `.`,
/// the parent directory for a `..`, a name for any other.
pub open spec fn kept(parts: Seq<Seq<u8>>) -> Seq<ComponentView>
    decreases parts.len(),
{
    if parts.len() == 0 {
        seq![]
    } else {
        let before = kept(parts.drop_last());
        let part = parts.last();
        if part.len() == 0 || part == dot() {
            before
        } else if part == dot_dot() {
            before.push(ComponentView::ParentDir)
        } else {
            before.push(ComponentView::Normal(part))
        }
    }
}

/// The components of a path where the separator is a slash. Repeated and trailing slashes
/// do not count, nor does a `.` except at the start of a relative path.
pub open spec fn unix_components(bytes: Seq<u8>) -> Seq<ComponentView> {
    let lead: Seq<ComponentView> = if bytes.len() > 0 && bytes[0] == 0x2f {
        seq![ComponentView::RootDir]
    } else if pieces(bytes)[0] == dot() {
        seq![ComponentView::CurDir]
    } else {
        seq![]
    };
    lead + kept(pieces(bytes))
}

/// The path `tail` seen from `base` where the separator is a slash: `tail` itself where
/// it is absolute, otherwise the two with one slash between them, if there is none yet.
pub open spec fn unix_join(base: Seq<u8>, tail: Seq<u8>) -> Seq<u8> {
    if tail.len() > 0 && tail[0] == 0x2f {
        tail
    } else if base.len() == 0 || base.last() == 0x2f {
        base + tail
    } else {
        base.push(0x2f) + tail
    }
}

/// The components of a path with these bytes.
pub open spec fn components_of(platform: Platform, bytes: Seq<u8>) -> Seq<ComponentView> {
    if platform.is_unix() {
        unix_components(bytes)
    } else {
        windows_components(bytes)
    }
}

/// The bytes of `tail` seen from `base`.
pub open spec fn joined(platform: Platform, base: Seq<u8>, tail: Seq<u8>) -> Seq<u8> {
    if platform.is_unix() {
        unix_join(base, tail)
    } else {
        windows_join(base, tail)
    }
}

/// Every component is a prefix, the root or a name: nothing leads upwards.
pub open spec fn only_descends(components: Seq<ComponentView>) -> bool {
    forall|i: int|
        0 <= i < components.len() ==> !(#[trigger] components[i] is CurDir) && !(
        components[i] is ParentDir)
}

/// `Path::components`: the components of `path`, in order. Where the separator is a slash
/// they are those that its documentation describes; elsewhere they are a function of the
/// path's bytes.
#[verifier::external_body]
pub(crate) fn split(platform: Platform, path: &PathBuf) -> (r: Vec<PathComponent>)
    ensures
        views(r@) == if platform.is_unix() {
            unix_components(path_bytes(*path))
        } else {
            windows_components(path_bytes(*path))
        },
{
    path.components().map(|component| match component {
        std::path::Component::Prefix(prefix) => PathComponent::Prefix(format!("{:?}", prefix.kind())),
        std::path::Component::RootDir => PathComponent::RootDir,
        std::path::Component::CurDir => PathComponent::CurDir,
        std::path::Component::ParentDir => PathComponent::ParentDir,
        std::path::Component::Normal(name) => PathComponent::Normal(name.as_encoded_bytes().to_vec()),
    }).collect()
}

/// `Path::join`: `tail` seen from `base`. Where the separator is a slash, an absolute
/// `tail` stands alone and any other follows `base` and a separator; elsewhere the
/// outcome is a function of the two texts.
#[verifier::external_body]
pub(crate) fn join(platform: Platform, base: &PathBuf, tail: &str) -> (r: PathBuf)
    ensures
        path_bytes(r) == if platform.is_unix() {
            unix_join(path_bytes(*base), vstd::utf8::encode_utf8(tail@))
        } else {
            windows_join(path_bytes(*base), vstd::utf8::encode_utf8(tail@))
        },
{
    base.join(tail)
}

/// `OsString::push`: the path whose text is that of `path` followed by `suffix`.
#[verifier::external_body]
pub(crate) fn append(path: &PathBuf, suffix: &str) -> (r: PathBuf)
    ensures
        path_bytes(r) == path_bytes(*path) + vstd::utf8::encode_utf8(suffix@),
{
    let mut text = path.clone().into_os_string();
    text.push(suffix);
    PathBuf::from(text)
}

/// Whether the two components are equal.
fn same_component(a: &PathComponent, b: &PathComponent) -> (r: bool)
    ensures
        r == (a@ == b@),
{
    match (a, b) {
        (PathComponent::Prefix(a_kind), PathComponent::Prefix(b_kind)) => same_text(a_kind, b_kind),
        (PathComponent::RootDir, PathComponent::RootDir) => true,
        (PathComponent::CurDir, PathComponent::CurDir) => true,
        (PathComponent::ParentDir, PathComponent::ParentDir) => true,
        (PathComponent::Normal(a_name), PathComponent::Normal(b_name)) => same_bytes(
            a_name,
            b_name,
        ),
        _ => false,
    }
}

/// Whether `path` begins with the components of `base`.
pub fn starts_with(path: &Vec<PathComponent>, base: &Vec<PathComponent>) -> (r: bool)
    ensures
        r == views(base@).is_prefix_of(views(path@)),
{
    if base.len() > path.len() {
        return false;
    }
    let mut i: usize = 0;
    while i < base.len()
        invariant
            i <= base@.len() <= path@.len(),
            forall|j: int| 0 <= j < i ==> base@[j]@ == path@[j]@,
        decreases base@.len() - i,
    {
        if !same_component(&base[i], &path[i]) {
            assert(views(base@)[i as int] != views(path@)[i as int]);
            return false;
        }
        i += 1;
    }
    assert(views(base@) =~= views(path@).subrange(0, base@.len() as int));
    true
}

/// Whether the two lists hold equal components.
pub fn same_components(a: &Vec<PathComponent>, b: &Vec<PathComponent>) -> (r: bool)
    ensures
        r == (views(a@) == views(b@)),
{
    if a.len() != b.len() {
        assert(views(a@).len() != views(b@).len());
        return false;
    }
    let r = starts_with(a, b);
    assert(views(a@).subrange(0, a@.len() as int) =~= views(a@));
    r
}

/// Whether nothing in the path leads upwards.
pub fn descends(components: &Vec<PathComponent>) -> (r: bool)
    ensures
        r == only_descends(views(components@)),
{
    let mut i: usize = 0;
    while i < components.len()
        invariant
            i <= components@.len(),
            forall|j: int|
                0 <= j < i ==> !(views(components@)[j] is CurDir) && !(
                views(components@)[j] is ParentDir),
        decreases components@.len() - i,
    {
        match &components[i] {
            PathComponent::Normal(_) | PathComponent::RootDir | PathComponent::Prefix(_) => {},
            _ => {
                assert(!only_descends(views(components@))) by {
                    assert(views(components@)[i as int] == components@[i as int]@);
                }
                return false;
            },
        }
        i += 1;
    }
    true
}

/// A relative path seen from a base adds its components to those of the base, except that
/// a `.` which it starts with does not count. Seen from an empty base it would count, so
/// that is left out.
pub proof fn joining_extends_the_base(base: Seq<u8>, tail: Seq<u8>)
    requires
        base.len() > 0 || pieces(tail)[0] != dot(),
        tail.len() == 0 || tail[0] != 0x2f,
    ensures
        unix_components(unix_join(base, tail)) == unix_components(base) + kept(pieces(tail)),
{
    let path = unix_join(base, tail);
    if base.len() == 0 {
        assert(base == Seq::<u8>::empty());
        assert(path == tail);
        empty_path_has_no_components();
    } else {
        if base.last() == 0x2f {
            let front = base.drop_last();
            assert(base == front.push(0x2f));
            lemma_pieces_of_joined(front, tail);
            lemma_pieces_not_empty(front);
            lemma_kept_of_both(pieces(front), pieces(tail));
            assert(pieces(base).drop_last() == pieces(front));
        } else {
            lemma_pieces_of_joined(base, tail);
            lemma_pieces_not_empty(base);
            lemma_kept_of_both(pieces(base), pieces(tail));
        }
        assert(path[0] == base[0]);
        assert(pieces(path)[0] == pieces(base)[0]);
    }
    assert(unix_components(path) =~= unix_components(base) + kept(pieces(tail)));
}

/// The empty path has no components.
pub proof fn empty_path_has_no_components()
    ensures
        unix_components(Seq::<u8>::empty()) == Seq::<ComponentView>::empty(),
{
    let parts = pieces(Seq::<u8>::empty());
    reveal_with_fuel(kept, 2);
    assert(parts.drop_last().len() == 0);
    assert(parts[0].len() != dot().len());
    assert(unix_components(Seq::<u8>::empty()) =~= Seq::<ComponentView>::empty());
}

/// A path leads nowhere upwards exactly where neither a `.` nor a `..` is among its
/// components.
pub proof fn paths_descend_without_dots(components: Seq<ComponentView>)
    ensures
        only_descends(components) <==> !components.contains(ComponentView::CurDir)
            && !components.contains(ComponentView::ParentDir),
{
    if !components.contains(ComponentView::CurDir) && !components.contains(
        ComponentView::ParentDir,
    ) {
        assert forall|i: int| 0 <= i < components.len() implies !(#[trigger] components[i] is CurDir)
            && !(components[i] is ParentDir) by {
            assert(components.contains(components[i]));
        }
    }
}

/// Where the main separator is a backslash, paths are read and joined as the platform does
/// it, with nothing added; and a platform has one kind of separator or the other.
pub proof fn windows_paths_are_read_as_they_are(platform: Platform, base: Seq<u8>, tail: Seq<u8>)
    ensures
        platform.is_unix() <==> !platform.is_windows(),
        platform.is_windows() ==> components_of(platform, tail) == windows_components(tail),
        platform.is_windows() ==> joined(platform, base, tail) == windows_join(base, tail),
{
}

proof fn lemma_pieces_not_empty(bytes: Seq<u8>)
    ensures
        pieces(bytes).len() > 0,
    decreases bytes.len(),
{
    if bytes.len() > 0 {
        lemma_pieces_not_empty(bytes.drop_last());
    }
}

proof fn lemma_pieces_of_joined(front: Seq<u8>, tail: Seq<u8>)
    ensures
        pieces(front.push(0x2f) + tail) == pieces(front) + pieces(tail),
    decreases tail.len(),
{
    let whole = front.push(0x2f) + tail;
    if tail.len() == 0 {
        assert(whole == front.push(0x2f));
        assert(whole.drop_last() == front);
    } else {
        let rest = tail.drop_last();
        lemma_pieces_of_joined(front, rest);
        lemma_pieces_not_empty(rest);
        assert(whole.drop_last() == front.push(0x2f) + rest);
        assert(whole.last() == tail.last());
        let before = pieces(front) + pieces(rest);
        assert(before.drop_last() == pieces(front) + pieces(rest).drop_last());
        assert(before.last() == pieces(rest).last());
    }
}

proof fn lemma_kept_of_both(front: Seq<Seq<u8>>, tail: Seq<Seq<u8>>)
    ensures
        kept(front + tail) == kept(front) + kept(tail),
    decreases tail.len(),
{
    if tail.len() == 0 {
        assert(front + tail == front);
    } else {
        lemma_kept_of_both(front, tail.drop_last());
        assert((front + tail).drop_last() == front + tail.drop_last());
    }
}

/// One more part behind a slash adds one component to a path: the parent directory for a
/// `..`, none for a `.` or for nothing, and otherwise the part itself as a name.
pub proof fn each_part_is_a_component(base: Seq<u8>, part: Seq<u8>)
    requires
        base.len() > 0,
        forall|i: int| 0 <= i < part.len() ==> #[trigger] part[i] != 0x2f,
    ensures
        unix_components(base.push(0x2f) + part) == if part.len() == 0 || part == seq![0x2eu8] {
            unix_components(base)
        } else if part == seq![0x2eu8, 0x2eu8] {
            unix_components(base).push(ComponentView::ParentDir)
        } else {
            unix_components(base).push(ComponentView::Normal(part))
        },
{
    let path = base.push(0x2f) + part;
    lemma_pieces_of_joined(base, part);
    lemma_pieces_not_empty(base);
    lemma_pieces_of_part(part);
    lemma_kept_of_both(pieces(base), pieces(part));
    reveal_with_fuel(kept, 2);
    assert(seq![part].drop_last().len() == 0);
    assert(path[0] == base[0]);
    assert(pieces(path)[0] == pieces(base)[0]);
}

/// The components of a path of one part without a slash, and of the root.
pub proof fn first_part_is_a_component(part: Seq<u8>)
    requires
        part.len() > 0,
        forall|i: int| 0 <= i < part.len() ==> #[trigger] part[i] != 0x2f,
    ensures
        unix_components(part) == seq![
            if part == seq![0x2eu8] {
                ComponentView::CurDir
            } else if part == seq![0x2eu8, 0x2eu8] {
                ComponentView::ParentDir
            } else {
                ComponentView::Normal(part)
            },
        ],
        unix_components(seq![0x2fu8]) == seq![ComponentView::RootDir],
{
    lemma_pieces_of_part(part);
    reveal_with_fuel(kept, 3);
    assert(seq![part].drop_last().len() == 0);
    let root = seq![0x2fu8];
    assert(root.drop_last() == Seq::<u8>::empty());
    reveal_with_fuel(pieces, 2);
    assert(pieces(root).drop_last().drop_last().len() == 0);
    assert(pieces(root).drop_last().last().len() == 0);
    assert(kept(pieces(root)) =~= Seq::<ComponentView>::empty());
    assert(dot().len() != dot_dot().len());
    assert(unix_components(part) =~= seq![
        if part == seq![0x2eu8] {
            ComponentView::CurDir
        } else if part == seq![0x2eu8, 0x2eu8] {
            ComponentView::ParentDir
        } else {
            ComponentView::Normal(part)
        },
    ]);
    assert(unix_components(root) =~= seq![ComponentView::RootDir]);
}

/// Where paths are written with slashes, an absolute path stands for itself wherever it is
/// seen from, and a relative one follows the base, with one slash between the two.
pub proof fn relative_paths_follow_the_base(platform: Platform, base: Seq<u8>, tail: Seq<u8>)
    requires
        platform.is_unix(),
        tail.len() > 0,
    ensures
        components_of(platform, tail) == unix_components(tail),
        tail[0] == 0x2f ==> joined(platform, base, tail) == tail,
        tail[0] != 0x2f && base.len() == 0 ==> joined(platform, base, tail) == tail,
        tail[0] != 0x2f ==> joined(platform, base.push(0x2f), tail) == base.push(0x2f) + tail,
        tail[0] != 0x2f && base.len() > 0 && base.last() != 0x2f ==> joined(platform, base, tail)
            == base.push(0x2f) + tail,
{
    if base.len() == 0 {
        assert(base + tail == tail);
    }
}

proof fn lemma_pieces_of_part(part: Seq<u8>)
    requires
        forall|i: int| 0 <= i < part.len() ==> #[trigger] part[i] != 0x2f,
    ensures
        pieces(part) == seq![part],
    decreases part.len(),
{
    if part.len() > 0 {
        let front = part.drop_last();
        lemma_pieces_of_part(front);
        assert(part.last() == part[part.len() - 1]);
        assert(front.push(part.last()) == part);
        assert(seq![front].drop_last().push(part) =~= seq![part]);
    } else {
        assert(part == Seq::<u8>::empty());
    }
}

} // verus!
