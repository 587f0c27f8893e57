//! The MIME type of a file, by the extension of its name.

use std::path::PathBuf;
use vstd::prelude::*;

use crate::path::{
    components_of, dot, dot_dot, path_bytes, split, views, ComponentView, PathComponent, Platform,
};
use crate::text::{lemma_ascii, lower_bytes, same_bytes, to_lower_bytes};

verus! {

/// The position of the last dot in `name`, or -1 where there is none.
pub open spec fn last_dot(name: Seq<u8>) -> int
    decreases name.len(),
{
    if name.len() == 0 {
        -1
    } else if name.last() == 0x2e {
        name.len() - 1
    } else {
        last_dot(name.drop_last())
    }
}

/// The extension of a file name: what follows the last dot, unless there is no dot or it
/// comes first.
pub open spec fn name_extension(name: Seq<u8>) -> Option<Seq<u8>> {
    if last_dot(name) > 0 {
        Some(name.skip(last_dot(name) + 1))
    } else {
        None
    }
}

/// The extension of the file that a path names. A path that does not end in a name has
/// none.
pub open spec fn extension(path: Seq<ComponentView>) -> Option<Seq<u8>> {
    if path.len() > 0 {
        match path.last() {
            ComponentView::Normal(name) => name_extension(name),
            _ => None,
        }
    } else {
        None
    }
}

/// The name that is left of the file's name without its extension.
pub open spec fn stem(path: Seq<ComponentView>) -> Seq<u8> {
    let name = path.last()->Normal_0;
    name.take(last_dot(name))
}

/// The file's name has an extension, and what is left without it is a name too: not `.`
/// or `..`, which stand for directories.
pub open spec fn has_plain_stem(path: Seq<ComponentView>) -> bool {
    extension(path) is Some && stem(path) != dot() && stem(path) != dot_dot()
}

/// The bytes of the path that `Path::with_extension` makes of a path with these bytes and
/// an empty extension. Whether the main separator is a backslash decides how the path is
/// read.
pub uninterp spec fn extension_dropped(backslash: bool, path: Seq<u8>) -> Seq<u8>;

/// `Path::with_extension` with an empty extension: the path without the extension of its
/// file's name. Where a name is left, the path ends in that; a `.` or `..` that is left is
/// read as part of the path, so then only the outcome has a name.
#[verifier::external_body]
fn drop_extension(platform: Platform, path: &PathBuf) -> (r: PathBuf)
    ensures
        path_bytes(r) == extension_dropped(platform.is_windows(), path_bytes(*path)),
        ({
            let whole = components_of(platform, path_bytes(*path));
            has_plain_stem(whole) ==> components_of(platform, path_bytes(r))
                == whole.drop_last().push(ComponentView::Normal(stem(whole)))
        }),
{
    path.with_extension("")
}

/// The path of what the file at a path holds: without the extension where that is `br`,
/// since then the file is the compressed form of another.
pub open spec fn content_path(platform: Platform, path: Seq<u8>) -> Seq<ComponentView> {
    let whole = components_of(platform, path);
    if extension(whole) != Some(text_bytes("br"@)) {
        whole
    } else if has_plain_stem(whole) {
        whole.drop_last().push(ComponentView::Normal(stem(whole)))
    } else {
        components_of(platform, extension_dropped(platform.is_windows(), path))
    }
}

/// The bytes of a text.
pub open spec fn text_bytes(text: Seq<char>) -> Seq<u8> {
    vstd::utf8::encode_utf8(text)
}

/// The MIME type that goes with an extension, in whichever case its letters are.
pub open spec fn mime_of_extension(extension: Option<Seq<u8>>) -> Seq<char> {
    match extension {
        None => "application/octet-stream"@,
        Some(bytes) => {
            let ext = lower_bytes(bytes);
            if ext == text_bytes("js"@) || ext == text_bytes("mjs"@) || ext == text_bytes("cjs"@) {
                "application/javascript; charset=utf-8"@
            } else if ext == text_bytes("css"@) {
                "text/css; charset=utf-8"@
            } else if ext == text_bytes("json"@) || ext == text_bytes("map"@) {
                "application/json; charset=utf-8"@
            } else if ext == text_bytes("html"@) || ext == text_bytes("htm"@) {
                "text/html; charset=utf-8"@
            } else if ext == text_bytes("svg"@) {
                "image/svg+xml"@
            } else if ext == text_bytes("wasm"@) {
                "application/wasm"@
            } else if ext == text_bytes("png"@) {
                "image/png"@
            } else if ext == text_bytes("jpg"@) || ext == text_bytes("jpeg"@) {
                "image/jpeg"@
            } else if ext == text_bytes("gif"@) {
                "image/gif"@
            } else if ext == text_bytes("webp"@) {
                "image/webp"@
            } else if ext == text_bytes("ttf"@) {
                "font/ttf"@
            } else if ext == text_bytes("otf"@) {
                "font/otf"@
            } else if ext == text_bytes("woff"@) {
                "font/woff"@
            } else if ext == text_bytes("woff2"@) {
                "font/woff2"@
            } else if ext == text_bytes("eot"@) {
                "application/vnd.ms-fontobject"@
            } else if ext == text_bytes("ico"@) {
                "image/x-icon"@
            } else if ext == text_bytes("xml"@) {
                "application/xml; charset=utf-8"@
            } else if ext == text_bytes("txt"@) {
                "text/plain; charset=utf-8"@
            } else if ext == text_bytes("toml"@) {
                "application/toml; charset=utf-8"@
            } else {
                "application/octet-stream"@
            }
        },
    }
}

/// The MIME type of the file at a path, or of what is compressed in it.
pub open spec fn mime_of(platform: Platform, path: Seq<u8>) -> Seq<char> {
    mime_of_extension(extension(content_path(platform, path)))
}

/// The position of the last dot in `name`, if there is one.
fn find_last_dot(name: &[u8]) -> (r: Option<usize>)
    ensures
        match r {
            Some(at) => at == last_dot(name@) && at < name@.len(),
            None => last_dot(name@) == -1,
        },
{
    let mut end: usize = name.len();
    assert(name@.take(end as int) == name@);
    while end > 0
        invariant
            end <= name@.len(),
            last_dot(name@.take(end as int)) == last_dot(name@),
        decreases end,
    {
        assert(name@.take(end as int).drop_last() == name@.take(end - 1));
        if name[end - 1] == 0x2e {
            return Some(end - 1);
        }
        end -= 1;
    }
    None
}

/// A copy of `bytes[from..to]`.
fn slice_of(bytes: &[u8], from: usize, to: usize) -> (r: Vec<u8>)
    requires
        from <= to <= bytes@.len(),
    ensures
        r@ == bytes@.subrange(from as int, to as int),
{
    let mut copy: Vec<u8> = Vec::new();
    let mut i: usize = from;
    while i < to
        invariant
            from <= i <= to <= bytes@.len(),
            copy@ == bytes@.subrange(from as int, i as int),
        decreases to - i,
    {
        copy.push(bytes[i]);
        i += 1;
    }
    copy
}

/// The extension of a file name.
fn extension_of_name(name: &[u8]) -> (r: Option<Vec<u8>>)
    ensures
        match r {
            Some(ext) => name_extension(name@) == Some(ext@),
            None => name_extension(name@) is None,
        },
{
    let len: usize = name.len();
    match find_last_dot(name) {
        Some(at) => {
            if at == 0 {
                None
            } else {
                Some(slice_of(name, at + 1, len))
            }
        },
        None => None,
    }
}

/// The MIME type that goes with an extension.
pub fn mime_for(extension: Option<Vec<u8>>) -> (r: &'static str)
    ensures
        r@ == mime_of_extension(
            match extension {
                Some(ext) => Some(ext@),
                None => None,
            },
        ),
{
    let ext = match extension {
        Some(bytes) => to_lower_bytes(&bytes),
        None => return "application/octet-stream",
    };
    if same_bytes(&ext, "js".as_bytes()) || same_bytes(&ext, "mjs".as_bytes()) || same_bytes(
        &ext,
        "cjs".as_bytes(),
    ) {
        "application/javascript; charset=utf-8"
    } else if same_bytes(&ext, "css".as_bytes()) {
        "text/css; charset=utf-8"
    } else if same_bytes(&ext, "json".as_bytes()) || same_bytes(&ext, "map".as_bytes()) {
        "application/json; charset=utf-8"
    } else if same_bytes(&ext, "html".as_bytes()) || same_bytes(&ext, "htm".as_bytes()) {
        "text/html; charset=utf-8"
    } else if same_bytes(&ext, "svg".as_bytes()) {
        "image/svg+xml"
    } else if same_bytes(&ext, "wasm".as_bytes()) {
        "application/wasm"
    } else if same_bytes(&ext, "png".as_bytes()) {
        "image/png"
    } else if same_bytes(&ext, "jpg".as_bytes()) || same_bytes(&ext, "jpeg".as_bytes()) {
        "image/jpeg"
    } else if same_bytes(&ext, "gif".as_bytes()) {
        "image/gif"
    } else if same_bytes(&ext, "webp".as_bytes()) {
        "image/webp"
    } else if same_bytes(&ext, "ttf".as_bytes()) {
        "font/ttf"
    } else if same_bytes(&ext, "otf".as_bytes()) {
        "font/otf"
    } else if same_bytes(&ext, "woff".as_bytes()) {
        "font/woff"
    } else if same_bytes(&ext, "woff2".as_bytes()) {
        "font/woff2"
    } else if same_bytes(&ext, "eot".as_bytes()) {
        "application/vnd.ms-fontobject"
    } else if same_bytes(&ext, "ico".as_bytes()) {
        "image/x-icon"
    } else if same_bytes(&ext, "xml".as_bytes()) {
        "application/xml; charset=utf-8"
    } else if same_bytes(&ext, "txt".as_bytes()) {
        "text/plain; charset=utf-8"
    } else if same_bytes(&ext, "toml".as_bytes()) {
        "application/toml; charset=utf-8"
    } else {
        "application/octet-stream"
    }
}

/// The extension of the file that a path with these components names.
fn extension_of(path: &Vec<PathComponent>) -> (r: Option<Vec<u8>>)
    ensures
        match r {
            Some(ext) => extension(views(path@)) == Some(ext@),
            None => extension(views(path@)) is None,
        },
{
    if path.len() == 0 {
        return None;
    }
    match &path[path.len() - 1] {
        PathComponent::Normal(name) => extension_of_name(name),
        _ => None,
    }
}

/// The MIME type of content at a path with these components.
pub fn mime_from_components(path: &Vec<PathComponent>) -> (r: &'static str)
    ensures
        r@ == mime_of_extension(extension(views(path@))),
{
    mime_for(extension_of(path))
}

/// The MIME type of the file at `path`, by the extension of its name. A trailing `.br`
/// does not count, so `app.js.br` is JavaScript.
pub fn mime_from_extension(platform: Platform, path: &PathBuf) -> (r: &'static str)
    ensures
        r@ == mime_of(platform, path_bytes(*path)),
{
    let whole = split(platform, path);
    let compressed = match extension_of(&whole) {
        Some(ext) => same_bytes(&ext, "br".as_bytes()),
        None => false,
    };
    if compressed {
        mime_from_components(&split(platform, &drop_extension(platform, path)))
    } else {
        mime_from_components(&whole)
    }
}

/// A pre-compressed sibling has the MIME type of the file that it stands for: a path that
/// ends in a name, and the path with `.br` behind that name.
///
/// A name that ends in `.br` itself is left out: of two such endings only one goes.
pub proof fn compressed_sibling_has_the_same_mime(
    platform: Platform,
    file: Seq<u8>,
    sibling: Seq<u8>,
    dir: Seq<ComponentView>,
    name: Seq<u8>,
)
    requires
        name.len() > 0,
        name != dot(),
        name != dot_dot(),
        name_extension(name) != Some(text_bytes("br"@)),
        components_of(platform, file) == dir.push(ComponentView::Normal(name)),
        components_of(platform, sibling) == dir.push(
            ComponentView::Normal(name + text_bytes(".br"@)),
        ),
    ensures
        mime_of(platform, sibling) == mime_of(platform, file),
{
    lemma_br_bytes();
    let long = name + text_bytes(".br"@);
    lemma_suffix_dot(name);
    assert(long.skip(name.len() as int + 1) =~= text_bytes("br"@));
    assert(long.take(name.len() as int) =~= name);
}

/// The MIME type does not depend on the case of the extension's letters.
pub proof fn mime_ignores_case(a: Seq<u8>, b: Seq<u8>)
    requires
        lower_bytes(a) == lower_bytes(b),
    ensures
        mime_of_extension(Some(a)) == mime_of_extension(Some(b)),
{
}

pub(crate) proof fn lemma_br_bytes()
    ensures
        text_bytes("br"@) == seq![0x62u8, 0x72u8],
        text_bytes(".br"@) == seq![0x2eu8, 0x62u8, 0x72u8],
{
    reveal_strlit("br");
    reveal_strlit(".br");
    vstd::utf8::is_ascii_chars_encode_utf8("br"@);
    vstd::utf8::is_ascii_chars_encode_utf8(".br"@);
    assert(text_bytes("br"@) =~= seq![0x62u8, 0x72u8]);
    assert(text_bytes(".br"@) =~= seq![0x2eu8, 0x62u8, 0x72u8]);
}

proof fn lemma_suffix_dot(name: Seq<u8>)
    ensures
        last_dot(name + text_bytes(".br"@)) == name.len(),
{
    lemma_br_bytes();
    let s = name + text_bytes(".br"@);
    reveal_with_fuel(last_dot, 4);
    assert(s.drop_last().drop_last().last() == 0x2e);
}

/// The types that go with extensions, in whichever case their letters are: `spelled` is the
/// extension with its letters in lower case.
pub proof fn types_of_extensions(ext: Seq<u8>, spelled: Seq<char>)
    requires
        ext.len() == spelled.len(),
        forall|i: int|
            0 <= i < spelled.len() ==> #[trigger] spelled[i] <= '\u{7f}' && !('A' <= spelled[i]
                <= 'Z'),
        forall|i: int|
            0 <= i < ext.len() ==> #[trigger] ext[i] as char == spelled[i] || ('a' <= spelled[i]
                <= 'z' && ext[i] as int == spelled[i] as int - 0x20),
    ensures
        (spelled == "js"@ || spelled == "mjs"@ || spelled == "cjs"@) ==> mime_of_extension(Some(ext))
            == "application/javascript; charset=utf-8"@,
        spelled == "css"@ ==> mime_of_extension(Some(ext))
            == "text/css; charset=utf-8"@,
        (spelled == "json"@ || spelled == "map"@) ==> mime_of_extension(Some(ext))
            == "application/json; charset=utf-8"@,
        (spelled == "html"@ || spelled == "htm"@) ==> mime_of_extension(Some(ext))
            == "text/html; charset=utf-8"@,
        spelled == "svg"@ ==> mime_of_extension(Some(ext))
            == "image/svg+xml"@,
        spelled == "wasm"@ ==> mime_of_extension(Some(ext))
            == "application/wasm"@,
        spelled == "png"@ ==> mime_of_extension(Some(ext))
            == "image/png"@,
        (spelled == "jpg"@ || spelled == "jpeg"@) ==> mime_of_extension(Some(ext))
            == "image/jpeg"@,
        spelled == "gif"@ ==> mime_of_extension(Some(ext))
            == "image/gif"@,
        spelled == "webp"@ ==> mime_of_extension(Some(ext))
            == "image/webp"@,
        spelled == "ttf"@ ==> mime_of_extension(Some(ext))
            == "font/ttf"@,
        spelled == "otf"@ ==> mime_of_extension(Some(ext))
            == "font/otf"@,
        spelled == "woff"@ ==> mime_of_extension(Some(ext))
            == "font/woff"@,
        spelled == "woff2"@ ==> mime_of_extension(Some(ext))
            == "font/woff2"@,
        spelled == "eot"@ ==> mime_of_extension(Some(ext))
            == "application/vnd.ms-fontobject"@,
        spelled == "ico"@ ==> mime_of_extension(Some(ext))
            == "image/x-icon"@,
        spelled == "xml"@ ==> mime_of_extension(Some(ext))
            == "application/xml; charset=utf-8"@,
        spelled == "txt"@ ==> mime_of_extension(Some(ext))
            == "text/plain; charset=utf-8"@,
        spelled == "toml"@ ==> mime_of_extension(Some(ext))
            == "application/toml; charset=utf-8"@,
        ({
            &&& spelled != "js"@
            &&& spelled != "mjs"@
            &&& spelled != "cjs"@
            &&& spelled != "css"@
            &&& spelled != "json"@
            &&& spelled != "map"@
            &&& spelled != "html"@
            &&& spelled != "htm"@
            &&& spelled != "svg"@
            &&& spelled != "wasm"@
            &&& spelled != "png"@
            &&& spelled != "jpg"@
            &&& spelled != "jpeg"@
            &&& spelled != "gif"@
            &&& spelled != "webp"@
            &&& spelled != "ttf"@
            &&& spelled != "otf"@
            &&& spelled != "woff"@
            &&& spelled != "woff2"@
            &&& spelled != "eot"@
            &&& spelled != "ico"@
            &&& spelled != "xml"@
            &&& spelled != "txt"@
            &&& spelled != "toml"@
        }) ==> mime_of_extension(Some(ext)) == "application/octet-stream"@,
{
    lemma_ascii(spelled);
    vstd::utf8::is_ascii_chars_encode_utf8(spelled);
    assert forall|i: int| 0 <= i < ext.len() implies lower_bytes(ext)[i] == text_bytes(spelled)[i] by {
        assert(ext[i] as char == spelled[i] || ('a' <= spelled[i] <= 'z' && ext[i] as int
            == spelled[i] as int - 0x20));
        assert(spelled[i] as u8 == text_bytes(spelled)[i]);
    }
    assert(lower_bytes(ext) =~= text_bytes(spelled));
    lemma_same_text(spelled, "js"@);
    lemma_same_text(spelled, "mjs"@);
    lemma_same_text(spelled, "cjs"@);
    lemma_same_text(spelled, "css"@);
    lemma_same_text(spelled, "json"@);
    lemma_same_text(spelled, "map"@);
    lemma_same_text(spelled, "html"@);
    lemma_same_text(spelled, "htm"@);
    lemma_same_text(spelled, "svg"@);
    lemma_same_text(spelled, "wasm"@);
    lemma_same_text(spelled, "png"@);
    lemma_same_text(spelled, "jpg"@);
    lemma_same_text(spelled, "jpeg"@);
    lemma_same_text(spelled, "gif"@);
    lemma_same_text(spelled, "webp"@);
    lemma_same_text(spelled, "ttf"@);
    lemma_same_text(spelled, "otf"@);
    lemma_same_text(spelled, "woff"@);
    lemma_same_text(spelled, "woff2"@);
    lemma_same_text(spelled, "eot"@);
    lemma_same_text(spelled, "ico"@);
    lemma_same_text(spelled, "xml"@);
    lemma_same_text(spelled, "txt"@);
    lemma_same_text(spelled, "toml"@);
    lemma_spelled(spelled);
}

/// Without an extension, and with one that is not ASCII, content is just bytes.
pub proof fn other_extensions_are_bytes(ext: Seq<u8>, at: int)
    requires
        0 <= at < ext.len(),
        ext[at] >= 0x80,
    ensures
        mime_of_extension(Some(ext)) == "application/octet-stream"@,
        mime_of_extension(None) == "application/octet-stream"@,
{
    reveal_strlit("js");
    lemma_not_ascii(ext, at, "js"@);
    reveal_strlit("mjs");
    lemma_not_ascii(ext, at, "mjs"@);
    reveal_strlit("cjs");
    lemma_not_ascii(ext, at, "cjs"@);
    reveal_strlit("css");
    lemma_not_ascii(ext, at, "css"@);
    reveal_strlit("json");
    lemma_not_ascii(ext, at, "json"@);
    reveal_strlit("map");
    lemma_not_ascii(ext, at, "map"@);
    reveal_strlit("html");
    lemma_not_ascii(ext, at, "html"@);
    reveal_strlit("htm");
    lemma_not_ascii(ext, at, "htm"@);
    reveal_strlit("svg");
    lemma_not_ascii(ext, at, "svg"@);
    reveal_strlit("wasm");
    lemma_not_ascii(ext, at, "wasm"@);
    reveal_strlit("png");
    lemma_not_ascii(ext, at, "png"@);
    reveal_strlit("jpg");
    lemma_not_ascii(ext, at, "jpg"@);
    reveal_strlit("jpeg");
    lemma_not_ascii(ext, at, "jpeg"@);
    reveal_strlit("gif");
    lemma_not_ascii(ext, at, "gif"@);
    reveal_strlit("webp");
    lemma_not_ascii(ext, at, "webp"@);
    reveal_strlit("ttf");
    lemma_not_ascii(ext, at, "ttf"@);
    reveal_strlit("otf");
    lemma_not_ascii(ext, at, "otf"@);
    reveal_strlit("woff");
    lemma_not_ascii(ext, at, "woff"@);
    reveal_strlit("woff2");
    lemma_not_ascii(ext, at, "woff2"@);
    reveal_strlit("eot");
    lemma_not_ascii(ext, at, "eot"@);
    reveal_strlit("ico");
    lemma_not_ascii(ext, at, "ico"@);
    reveal_strlit("xml");
    lemma_not_ascii(ext, at, "xml"@);
    reveal_strlit("txt");
    lemma_not_ascii(ext, at, "txt"@);
    reveal_strlit("toml");
    lemma_not_ascii(ext, at, "toml"@);
}

/// The type of a file is that of what follows the last dot in its name, whatever the
/// directory and the rest of the name, unless that is the `br` of a compressed file.
pub proof fn extension_decides_the_type(
    platform: Platform,
    path: Seq<u8>,
    dir: Seq<ComponentView>,
    stem: Seq<u8>,
    ext: Seq<u8>,
)
    requires
        stem.len() > 0,
        forall|i: int| 0 <= i < ext.len() ==> #[trigger] ext[i] != 0x2e,
    ensures
        ({
            let whole = dir.push(ComponentView::Normal(stem + seq![0x2eu8] + ext));
            &&& extension(whole) == Some(ext)
            &&& components_of(platform, path) == whole && ext != seq![0x62u8, 0x72u8] ==> mime_of(
                platform,
                path,
            ) == mime_of_extension(Some(ext))
        }),
{
    let name = stem + seq![0x2eu8] + ext;
    lemma_last_dot(stem, ext);
    lemma_br_bytes();
    assert(name.skip(stem.len() as int + 1) == ext);
}

/// A file without an extension is just bytes: its name holds no dot, or only one that it
/// starts with; or the path ends in no name.
pub proof fn files_without_an_extension_are_bytes(
    platform: Platform,
    path: Seq<u8>,
    whole: Seq<ComponentView>,
    name: Seq<u8>,
)
    requires
        ({
            ||| whole.len() == 0
            ||| !(whole.last() is Normal)
            ||| whole.last() == ComponentView::Normal(name) && forall|i: int|
                0 < i < name.len() ==> #[trigger] name[i] != 0x2e
        }),
    ensures
        extension(whole) is None,
        components_of(platform, path) == whole ==> mime_of(platform, path)
            == "application/octet-stream"@,
{
    lemma_no_later_dot(name);
}

/// Of the names `..br` and `...br` no name is left, so there the type is that of whatever
/// path is left.
pub proof fn dots_are_read_as_part_of_the_path(
    platform: Platform,
    path: Seq<u8>,
    dir: Seq<ComponentView>,
)
    requires
        ({
            let whole = components_of(platform, path);
            ||| whole == dir.push(ComponentView::Normal(seq![0x2eu8, 0x2eu8, 0x62u8, 0x72u8]))
            ||| whole == dir.push(ComponentView::Normal(seq![0x2eu8, 0x2eu8, 0x2eu8, 0x62u8, 0x72u8]))
        }),
    ensures
        mime_of(platform, path) == mime_of_extension(
            extension(components_of(platform, extension_dropped(platform.is_windows(), path))),
        ),
{
    lemma_br_bytes();
    let name = components_of(platform, path).last()->Normal_0;
    let stem = name.take(name.len() - 3);
    lemma_last_dot(stem, seq![0x62u8, 0x72u8]);
    assert(name =~= stem + seq![0x2eu8] + seq![0x62u8, 0x72u8]);
    assert(name.skip(name.len() - 2) =~= seq![0x62u8, 0x72u8]);
    assert(stem =~= dot() || stem =~= dot_dot());
}

/// A name and the same name with `.br` behind it have the same type, unless the name ends
/// in `.br` itself.
pub proof fn compressed_names_have_the_type_of_their_content(
    platform: Platform,
    file: Seq<u8>,
    compressed: Seq<u8>,
    dir: Seq<ComponentView>,
    name: Seq<u8>,
)
    requires
        name.len() > 0,
        name != seq![0x2eu8],
        name != seq![0x2eu8, 0x2eu8],
        name.len() > 3 ==> name.skip(name.len() - 3) != seq![0x2eu8, 0x62u8, 0x72u8],
        components_of(platform, file) == dir.push(ComponentView::Normal(name)),
        components_of(platform, compressed) == dir.push(
            ComponentView::Normal(name + seq![0x2eu8, 0x62u8, 0x72u8]),
        ),
    ensures
        mime_of(platform, compressed) == mime_of(platform, file),
{
    lemma_br_bytes();
    lemma_last_dot_is_a_dot(name);
    let at = last_dot(name);
    if at > 0 && name.skip(at + 1) == text_bytes("br"@) {
        assert(name.skip(at + 1).len() == 2);
        assert(name.skip(at + 1)[0] == name[at + 1] && name.skip(at + 1)[1] == name[at + 2]);
        assert(name.skip(name.len() - 3) =~= seq![0x2eu8, 0x62u8, 0x72u8]);
    }
    compressed_sibling_has_the_same_mime(platform, file, compressed, dir, name);
}

proof fn lemma_last_dot(stem: Seq<u8>, ext: Seq<u8>)
    requires
        forall|i: int| 0 <= i < ext.len() ==> #[trigger] ext[i] != 0x2e,
    ensures
        last_dot(stem + seq![0x2eu8] + ext) == stem.len(),
    decreases ext.len(),
{
    let name = stem + seq![0x2eu8] + ext;
    if ext.len() > 0 {
        lemma_last_dot(stem, ext.drop_last());
        assert(name.last() == ext[ext.len() - 1]);
        assert(name.drop_last() == stem + seq![0x2eu8] + ext.drop_last());
    } else {
        assert(name.last() == 0x2e);
    }
}

proof fn lemma_no_later_dot(name: Seq<u8>)
    ensures
        (forall|i: int| 0 < i < name.len() ==> #[trigger] name[i] != 0x2e) ==> last_dot(name) <= 0,
    decreases name.len(),
{
    if name.len() > 0 {
        let front = name.drop_last();
        lemma_no_later_dot(front);
        assert(name.last() == name[name.len() - 1]);
        if forall|i: int| 0 < i < name.len() ==> #[trigger] name[i] != 0x2e {
            assert forall|i: int| 0 < i < front.len() implies #[trigger] front[i] != 0x2e by {
                assert(front[i] == name[i]);
            }
        }
    }
}

proof fn lemma_last_dot_is_a_dot(name: Seq<u8>)
    ensures
        -1 <= last_dot(name) < name.len(),
        last_dot(name) >= 0 ==> name[last_dot(name)] == 0x2e,
    decreases name.len(),
{
    if name.len() > 0 {
        lemma_last_dot_is_a_dot(name.drop_last());
    }
}

/// Which of the listed extensions a text is, by its characters.
proof fn lemma_spelled(text: Seq<char>)
    ensures
        text == "js"@ <==> text.len() == 2 && text[0] == 'j' && text[1] == 's',
        text == "mjs"@ <==> text.len() == 3 && text[0] == 'm' && text[1] == 'j' && text[2] == 's',
        text == "cjs"@ <==> text.len() == 3 && text[0] == 'c' && text[1] == 'j' && text[2] == 's',
        text == "css"@ <==> text.len() == 3 && text[0] == 'c' && text[1] == 's' && text[2] == 's',
        text == "json"@ <==> text.len() == 4 && text[0] == 'j' && text[1] == 's' && text[2] == 'o' && text[3] == 'n',
        text == "map"@ <==> text.len() == 3 && text[0] == 'm' && text[1] == 'a' && text[2] == 'p',
        text == "html"@ <==> text.len() == 4 && text[0] == 'h' && text[1] == 't' && text[2] == 'm' && text[3] == 'l',
        text == "htm"@ <==> text.len() == 3 && text[0] == 'h' && text[1] == 't' && text[2] == 'm',
        text == "svg"@ <==> text.len() == 3 && text[0] == 's' && text[1] == 'v' && text[2] == 'g',
        text == "wasm"@ <==> text.len() == 4 && text[0] == 'w' && text[1] == 'a' && text[2] == 's' && text[3] == 'm',
        text == "png"@ <==> text.len() == 3 && text[0] == 'p' && text[1] == 'n' && text[2] == 'g',
        text == "jpg"@ <==> text.len() == 3 && text[0] == 'j' && text[1] == 'p' && text[2] == 'g',
        text == "jpeg"@ <==> text.len() == 4 && text[0] == 'j' && text[1] == 'p' && text[2] == 'e' && text[3] == 'g',
        text == "gif"@ <==> text.len() == 3 && text[0] == 'g' && text[1] == 'i' && text[2] == 'f',
        text == "webp"@ <==> text.len() == 4 && text[0] == 'w' && text[1] == 'e' && text[2] == 'b' && text[3] == 'p',
        text == "ttf"@ <==> text.len() == 3 && text[0] == 't' && text[1] == 't' && text[2] == 'f',
        text == "otf"@ <==> text.len() == 3 && text[0] == 'o' && text[1] == 't' && text[2] == 'f',
        text == "woff"@ <==> text.len() == 4 && text[0] == 'w' && text[1] == 'o' && text[2] == 'f' && text[3] == 'f',
        text == "woff2"@ <==> text.len() == 5 && text[0] == 'w' && text[1] == 'o' && text[2] == 'f' && text[3] == 'f' && text[4] == '2',
        text == "eot"@ <==> text.len() == 3 && text[0] == 'e' && text[1] == 'o' && text[2] == 't',
        text == "ico"@ <==> text.len() == 3 && text[0] == 'i' && text[1] == 'c' && text[2] == 'o',
        text == "xml"@ <==> text.len() == 3 && text[0] == 'x' && text[1] == 'm' && text[2] == 'l',
        text == "txt"@ <==> text.len() == 3 && text[0] == 't' && text[1] == 'x' && text[2] == 't',
        text == "toml"@ <==> text.len() == 4 && text[0] == 't' && text[1] == 'o' && text[2] == 'm' && text[3] == 'l',
{
    reveal_strlit("js");
    if text.len() == 2 && text[0] == 'j' && text[1] == 's' {
        assert(text =~= "js"@);
    }
    reveal_strlit("mjs");
    if text.len() == 3 && text[0] == 'm' && text[1] == 'j' && text[2] == 's' {
        assert(text =~= "mjs"@);
    }
    reveal_strlit("cjs");
    if text.len() == 3 && text[0] == 'c' && text[1] == 'j' && text[2] == 's' {
        assert(text =~= "cjs"@);
    }
    reveal_strlit("css");
    if text.len() == 3 && text[0] == 'c' && text[1] == 's' && text[2] == 's' {
        assert(text =~= "css"@);
    }
    reveal_strlit("json");
    if text.len() == 4 && text[0] == 'j' && text[1] == 's' && text[2] == 'o' && text[3] == 'n' {
        assert(text =~= "json"@);
    }
    reveal_strlit("map");
    if text.len() == 3 && text[0] == 'm' && text[1] == 'a' && text[2] == 'p' {
        assert(text =~= "map"@);
    }
    reveal_strlit("html");
    if text.len() == 4 && text[0] == 'h' && text[1] == 't' && text[2] == 'm' && text[3] == 'l' {
        assert(text =~= "html"@);
    }
    reveal_strlit("htm");
    if text.len() == 3 && text[0] == 'h' && text[1] == 't' && text[2] == 'm' {
        assert(text =~= "htm"@);
    }
    reveal_strlit("svg");
    if text.len() == 3 && text[0] == 's' && text[1] == 'v' && text[2] == 'g' {
        assert(text =~= "svg"@);
    }
    reveal_strlit("wasm");
    if text.len() == 4 && text[0] == 'w' && text[1] == 'a' && text[2] == 's' && text[3] == 'm' {
        assert(text =~= "wasm"@);
    }
    reveal_strlit("png");
    if text.len() == 3 && text[0] == 'p' && text[1] == 'n' && text[2] == 'g' {
        assert(text =~= "png"@);
    }
    reveal_strlit("jpg");
    if text.len() == 3 && text[0] == 'j' && text[1] == 'p' && text[2] == 'g' {
        assert(text =~= "jpg"@);
    }
    reveal_strlit("jpeg");
    if text.len() == 4 && text[0] == 'j' && text[1] == 'p' && text[2] == 'e' && text[3] == 'g' {
        assert(text =~= "jpeg"@);
    }
    reveal_strlit("gif");
    if text.len() == 3 && text[0] == 'g' && text[1] == 'i' && text[2] == 'f' {
        assert(text =~= "gif"@);
    }
    reveal_strlit("webp");
    if text.len() == 4 && text[0] == 'w' && text[1] == 'e' && text[2] == 'b' && text[3] == 'p' {
        assert(text =~= "webp"@);
    }
    reveal_strlit("ttf");
    if text.len() == 3 && text[0] == 't' && text[1] == 't' && text[2] == 'f' {
        assert(text =~= "ttf"@);
    }
    reveal_strlit("otf");
    if text.len() == 3 && text[0] == 'o' && text[1] == 't' && text[2] == 'f' {
        assert(text =~= "otf"@);
    }
    reveal_strlit("woff");
    if text.len() == 4 && text[0] == 'w' && text[1] == 'o' && text[2] == 'f' && text[3] == 'f' {
        assert(text =~= "woff"@);
    }
    reveal_strlit("woff2");
    if text.len() == 5 && text[0] == 'w' && text[1] == 'o' && text[2] == 'f' && text[3] == 'f' && text[4] == '2' {
        assert(text =~= "woff2"@);
    }
    reveal_strlit("eot");
    if text.len() == 3 && text[0] == 'e' && text[1] == 'o' && text[2] == 't' {
        assert(text =~= "eot"@);
    }
    reveal_strlit("ico");
    if text.len() == 3 && text[0] == 'i' && text[1] == 'c' && text[2] == 'o' {
        assert(text =~= "ico"@);
    }
    reveal_strlit("xml");
    if text.len() == 3 && text[0] == 'x' && text[1] == 'm' && text[2] == 'l' {
        assert(text =~= "xml"@);
    }
    reveal_strlit("txt");
    if text.len() == 3 && text[0] == 't' && text[1] == 'x' && text[2] == 't' {
        assert(text =~= "txt"@);
    }
    reveal_strlit("toml");
    if text.len() == 4 && text[0] == 't' && text[1] == 'o' && text[2] == 'm' && text[3] == 'l' {
        assert(text =~= "toml"@);
    }
}

proof fn lemma_not_ascii(ext: Seq<u8>, at: int, text: Seq<char>)
    requires
        0 <= at < ext.len(),
        ext[at] >= 0x80,
        vstd::utf8::is_ascii_chars(text),
    ensures
        lower_bytes(ext) != text_bytes(text),
{
    vstd::utf8::is_ascii_chars_encode_utf8(text);
    if lower_bytes(ext) == text_bytes(text) {
        assert(lower_bytes(ext)[at] == ext[at]);
        assert(text[at] as u8 == text_bytes(text)[at]);
    }
}

/// Texts with the same bytes are the same.
proof fn lemma_same_text(a: Seq<char>, b: Seq<char>)
    ensures
        text_bytes(a) == text_bytes(b) <==> a == b,
{
    vstd::utf8::encode_utf8_decode_utf8(a);
    vstd::utf8::encode_utf8_decode_utf8(b);
}

} // verus!
