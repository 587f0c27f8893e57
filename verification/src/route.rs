//! What a URL asks for: its path, the file that the path stands for below the static
//! root, and how long a client may keep the content.

use vstd::prelude::*;

use crate::text::{chars_of, starts_with, text_between};

verus! {

/// The path of the URL, as `http::Uri` reads it, or `None` where it reads no URI.
pub uninterp spec fn uri_path(url: Seq<char>) -> Option<Seq<char>>;

/// The text in an optional string.
pub open spec fn text_in(text: Option<String>) -> Option<Seq<char>> {
    match text {
        Some(text) => Some(text@),
        None => None,
    }
}

/// The URL begins with a slash, so it is a path and not an absolute URL.
pub open spec fn is_rooted(url: Seq<char>) -> bool {
    url.len() > 0 && url[0] == '/'
}

/// `http::Uri::from_str` and `http::Uri::path`: the path of the URI that `url` is, or
/// `None` where it is none. A path ends where the query or the fragment begins. So the
/// path of a URI is also that of what stands before them, and where that begins with a
/// slash it is the path itself.
#[verifier::external_body]
fn parse_uri_path(url: &str) -> (r: Option<String>)
    ensures
        text_in(r) == uri_path(url@),
        r is Some ==> !r->0@.contains('?') && !r->0@.contains('#'),
        r is Some ==> text_in(r) == uri_path(before_query(url@)),
        r is Some && is_rooted(url@) ==> r->0@ == before_query(url@),
{
    url.parse::<http::Uri>().ok().map(|uri| uri.path().to_owned())
}

/// The path of a URI without query and fragment.
pub open spec fn bare_path(url: Seq<char>) -> Seq<char> {
    if is_rooted(url) {
        url
    } else {
        path_or_whole(uri_path(url), url)
    }
}

/// The path that a URL asks for: that of the part before query and fragment where the URL
/// is a URI, otherwise the URL itself.
pub open spec fn asked_path(url: Seq<char>) -> Seq<char> {
    match uri_path(url) {
        Some(_) => bare_path(before_query(url)),
        None => url,
    }
}

/// The path that was read in a URL, or the URL itself where none was.
pub open spec fn path_or_whole(parsed: Option<Seq<char>>, url: Seq<char>) -> Seq<char> {
    match parsed {
        Some(path) => path,
        None => url,
    }
}

/// The path that was read in a URL, or the URL itself where none was.
pub fn path_or_url(parsed: Option<String>, url: &str) -> (r: String)
    ensures
        r@ == path_or_whole(text_in(parsed), url@),
{
    match parsed {
        Some(path) => path,
        None => url.to_owned(),
    }
}

/// The path that a URL asks for. The path of a well-formed URL holds neither query nor
/// fragment.
pub fn request_path(url: &str) -> (r: String)
    ensures
        r@ == asked_path(url@),
        r@ == path_or_whole(uri_path(url@), url@),
        uri_path(url@) is Some ==> !r@.contains('?') && !r@.contains('#'),
{
    let parsed = parse_uri_path(url);
    path_or_url(parsed, url)
}

/// `text` without the slashes that it starts with.
pub open spec fn without_slashes(text: Seq<char>) -> Seq<char>
    decreases text.len(),
{
    if text.len() > 0 && text[0] == '/' {
        without_slashes(text.skip(1))
    } else {
        text
    }
}

/// The character begins the query or the fragment of a URL.
pub open spec fn ends_path(c: char) -> bool {
    c == '?' || c == '#'
}

/// `text` up to the first `?` or `#`.
pub open spec fn before_query(text: Seq<char>) -> Seq<char>
    decreases text.len(),
{
    if text.len() == 0 || ends_path(text[0]) {
        seq![]
    } else {
        seq![text[0]] + before_query(text.skip(1))
    }
}

/// The file that a path stands for below the static root. The root itself stands for
/// `index.html`.
pub open spec fn static_file(path: Seq<char>) -> Seq<char> {
    let name = before_query(without_slashes(path));
    if name.len() == 0 {
        "index.html"@
    } else {
        name
    }
}

/// What follows the last slash.
pub open spec fn last_segment(text: Seq<char>) -> Seq<char>
    decreases text.len(),
{
    if text.len() == 0 {
        text
    } else if text.last() == '/' {
        seq![]
    } else {
        last_segment(text.drop_last()).push(text.last())
    }
}

/// The character is an ASCII letter or digit.
pub open spec fn is_alphanumeric(c: char) -> bool {
    'A' <= c <= 'Z' || 'a' <= c <= 'z' || '0' <= c <= '9'
}

/// A content hash stands at `at`: a `-` and eight letters or digits.
pub open spec fn hash_at(name: Seq<char>, at: int) -> bool {
    &&& 0 <= at
    &&& at + 8 < name.len()
    &&& name[at] == '-'
    &&& forall|j: int| at < j <= at + 8 ==> is_alphanumeric(#[trigger] name[j])
}

/// The name holds a content hash.
pub open spec fn has_content_hash(name: Seq<char>) -> bool {
    exists|at: int| hash_at(name, at)
}

/// The content at the path never changes: it is a chunk below `_astro/`, or its file name
/// holds a content hash.
pub open spec fn is_immutable(path: Seq<char>) -> bool {
    ||| "/_astro/"@.is_prefix_of(path)
    ||| "_astro/"@.is_prefix_of(path)
    ||| has_content_hash(last_segment(before_query(path)))
}

/// `Cache-Control` of content that never changes.
pub open spec fn keep_forever() -> Seq<char> {
    "public, max-age=31536000, immutable"@
}

/// `Cache-Control` of an embedded asset.
pub open spec fn asset_cache_control(path: Seq<char>) -> Seq<char> {
    if is_immutable(path) {
        keep_forever()
    } else {
        "no-cache"@
    }
}

/// `Cache-Control` of a file below the static root.
pub open spec fn static_cache_control(path: Seq<char>) -> Seq<char> {
    if is_immutable(path) {
        keep_forever()
    } else {
        "no-cache, must-revalidate"@
    }
}

/// How many of the characters from `from` on come before a `?` or `#`.
fn query_start(chars: &Vec<char>, from: usize) -> (r: usize)
    requires
        from <= chars@.len(),
    ensures
        from <= r <= chars@.len(),
        chars@.subrange(from as int, r as int) == before_query(chars@.skip(from as int)),
{
    let ghost text = chars@.skip(from as int);
    let mut end: usize = from;
    assert(chars@.subrange(from as int, end as int) == Seq::<char>::empty());
    while end < chars.len()
        invariant
            from <= end <= chars@.len(),
            text == chars@.skip(from as int),
            before_query(text) == chars@.subrange(from as int, end as int) + before_query(
                chars@.skip(end as int),
            ),
        decreases chars@.len() - end,
    {
        let c = chars[end];
        if c == '?' || c == '#' {
            assert(before_query(chars@.skip(end as int)) == Seq::<char>::empty());
            return end;
        }
        assert(chars@.skip(end as int).skip(1) == chars@.skip(end + 1));
        assert(chars@.subrange(from as int, end + 1) == chars@.subrange(from as int, end as int)
            + seq![c]);
        end += 1;
    }
    end
}

/// The file that a path stands for below the static root.
pub fn static_candidate(path: &str) -> (r: String)
    ensures
        r@ == static_file(path@),
{
    let chars = chars_of(path);
    let mut start: usize = 0;
    assert(chars@.skip(0) == chars@);
    while start < chars.len() && chars[start] == '/'
        invariant
            start <= chars@.len(),
            chars@ == path@,
            without_slashes(chars@.skip(start as int)) == without_slashes(path@),
        decreases chars@.len() - start,
    {
        assert(chars@.skip(start as int).skip(1) == chars@.skip(start + 1));
        start += 1;
    }
    let end = query_start(&chars, start);
    if start == end {
        "index.html".to_owned()
    } else {
        text_between(&chars, start, end)
    }
}

fn alphanumeric(c: char) -> (r: bool)
    ensures
        r == is_alphanumeric(c),
{
    ('A' <= c && c <= 'Z') || ('a' <= c && c <= 'z') || ('0' <= c && c <= '9')
}

/// Whether a content hash stands at `at` in `chars[from..end]`.
fn hash_stands_at(chars: &Vec<char>, from: usize, end: usize, at: usize) -> (r: bool)
    requires
        from <= at < end <= chars@.len(),
    ensures
        r == hash_at(chars@.subrange(from as int, end as int), at - from),
{
    let ghost name = chars@.subrange(from as int, end as int);
    if end - at <= 8 || chars[at] != '-' {
        return false;
    }
    let mut j: usize = at + 1;
    while j <= at + 8
        invariant
            from <= at < j <= at + 9,
            at + 8 < end <= chars.len(),
            name == chars@.subrange(from as int, end as int),
            forall|k: int| at - from < k < j - from ==> is_alphanumeric(#[trigger] name[k]),
        decreases at + 9 - j,
    {
        if !alphanumeric(chars[j]) {
            assert(!is_alphanumeric(name[j - from]));
            return false;
        }
        assert(is_alphanumeric(name[j - from]));
        j += 1;
    }
    true
}

/// The position behind the last slash in `chars[..end]`.
fn segment_start(chars: &Vec<char>, end: usize) -> (r: usize)
    requires
        end <= chars@.len(),
    ensures
        r <= end,
        chars@.subrange(r as int, end as int) == last_segment(chars@.take(end as int)),
{
    let ghost text = chars@.take(end as int);
    let mut start: usize = end;
    assert(chars@.subrange(end as int, end as int) == Seq::<char>::empty());
    assert(last_segment(text) == last_segment(text) + Seq::<char>::empty());
    while start > 0
        invariant
            start <= end <= chars@.len(),
            text == chars@.take(end as int),
            last_segment(text) == last_segment(chars@.take(start as int)) + chars@.subrange(
                start as int,
                end as int,
            ),
        decreases start,
    {
        if chars[start - 1] == '/' {
            assert(last_segment(chars@.take(start as int)) == Seq::<char>::empty());
            return start;
        }
        assert(chars@.take(start as int).drop_last() == chars@.take(start - 1));
        assert(chars@.subrange(start - 1, end as int) == seq![chars@[start - 1]] + chars@.subrange(
            start as int,
            end as int,
        ));
        start -= 1;
    }
    start
}

/// Whether the content at a URL path never changes. True of `_astro/` chunks and of any
/// file whose name holds a content hash, such as `app-3f9ab2c1.js`.
pub fn is_immutable_asset(path: &str) -> (r: bool)
    ensures
        r == is_immutable(path@),
{
    if starts_with(path, "/_astro/") || starts_with(path, "_astro/") {
        return true;
    }
    let chars = chars_of(path);
    let end = query_start(&chars, 0);
    assert(chars@.skip(0) == chars@);
    assert(chars@.subrange(0, end as int) == chars@.take(end as int));
    let start = segment_start(&chars, end);
    let ghost name = last_segment(before_query(path@));
    let mut at: usize = start;
    while at < end
        invariant
            start <= at <= end <= chars@.len(),
            name == chars@.subrange(start as int, end as int),
            name == last_segment(before_query(path@)),
            forall|i: int| i < at - start ==> !hash_at(name, i),
        decreases end - at,
    {
        if hash_stands_at(&chars, start, end, at) {
            return true;
        }
        at += 1;
    }
    false
}

/// `Cache-Control` of an embedded asset.
pub fn asset_cache(path: &str) -> (r: &'static str)
    ensures
        r@ == asset_cache_control(path@),
{
    if is_immutable_asset(path) {
        "public, max-age=31536000, immutable"
    } else {
        "no-cache"
    }
}

/// `Cache-Control` of a file below the static root.
pub fn static_cache(path: &str) -> (r: &'static str)
    ensures
        r@ == static_cache_control(path@),
{
    if is_immutable_asset(path) {
        "public, max-age=31536000, immutable"
    } else {
        "no-cache, must-revalidate"
    }
}

/// A URL asks for the same path with and without a query or a fragment, where it is a URI
/// both ways.
pub proof fn query_is_not_part_of_the_path(url: Seq<char>, query: Seq<char>)
    requires
        !url.contains('?'),
        !url.contains('#'),
        query.len() > 0 ==> ends_path(query[0]),
    ensures
        before_query(url + query) == url,
        uri_path(url) is Some && uri_path(url + query) is Some ==> asked_path(url + query)
            == asked_path(url),
{
    assert forall|i: int| 0 <= i < url.len() implies !ends_path(url[i]) by {
        assert(url.contains(url[i]));
    }
    lemma_before_query_of_plain(url);
    lemma_query_is_cut(url, query);
}

proof fn lemma_query_is_cut(text: Seq<char>, query: Seq<char>)
    requires
        forall|i: int| 0 <= i < text.len() ==> !ends_path(text[i]),
        query.len() > 0 ==> ends_path(query[0]),
    ensures
        before_query(text + query) == text,
    decreases text.len(),
{
    if text.len() == 0 {
        assert(text + query == query);
    } else {
        lemma_query_is_cut(text.skip(1), query);
        assert((text + query).skip(1) == text.skip(1) + query);
        assert(text == seq![text[0]] + text.skip(1));
    }
}

/// Any number of slashes, with or without a query, stands for `index.html`.
pub proof fn root_is_the_index(slashes: Seq<char>, query: Seq<char>)
    requires
        forall|i: int| 0 <= i < slashes.len() ==> slashes[i] == '/',
        query.len() > 0 ==> ends_path(query[0]),
    ensures
        static_file(slashes + query) == "index.html"@,
    decreases slashes.len(),
{
    let path = slashes + query;
    if slashes.len() == 0 {
        assert(path == query);
    } else {
        assert(path.skip(1) == slashes.skip(1) + query);
        root_is_the_index(slashes.skip(1), query);
    }
}

/// The file of a path that holds no query and no fragment is the path without the slashes
/// that it starts with.
pub proof fn plain_path_is_its_file(path: Seq<char>)
    requires
        !path.contains('?'),
        !path.contains('#'),
        without_slashes(path).len() > 0,
    ensures
        static_file(path) == without_slashes(path),
{
    lemma_without_slashes_is_suffix(path);
    let rest = without_slashes(path);
    assert forall|i: int| 0 <= i < rest.len() implies !ends_path(rest[i]) by {
        assert(rest[i] == path[path.len() - rest.len() + i]);
    }
    lemma_before_query_of_plain(rest);
}

/// The file of a path never starts with a slash: it is relative to the static root.
pub proof fn static_file_is_relative(path: Seq<char>)
    ensures
        static_file(path).len() > 0,
        static_file(path)[0] != '/',
{
    reveal_strlit("index.html");
    lemma_first_is_no_slash(path);
}

/// The file below the static root that a path stands for is what stands between the
/// slashes that the path starts with and its query or fragment, and `index.html` where
/// nothing stands there.
pub proof fn static_file_is_named_by_the_path(
    slashes: Seq<char>,
    name: Seq<char>,
    query: Seq<char>,
)
    requires
        forall|i: int| 0 <= i < slashes.len() ==> #[trigger] slashes[i] == '/',
        forall|i: int|
            0 <= i < name.len() ==> #[trigger] name[i] != '?' && name[i] != '#',
        name.len() > 0 ==> name[0] != '/',
        query.len() > 0 ==> query[0] == '?' || query[0] == '#',
    ensures
        name.len() > 0 ==> static_file(slashes + name + query) == name,
        name.len() == 0 ==> static_file(slashes + name + query) == "index.html"@,
    decreases slashes.len(),
{
    let path = slashes + name + query;
    if slashes.len() == 0 {
        assert(path == name + query);
        lemma_query_is_cut(name, query);
        if name.len() > 0 {
            assert(path[0] == name[0]);
        } else {
            assert(path == query);
        }
    } else {
        static_file_is_named_by_the_path(slashes.skip(1), name, query);
        assert(path.skip(1) == slashes.skip(1) + name + query);
        assert(path[0] == '/');
    }
}

/// A URL that begins with a slash and is a URI asks for what stands before its query or
/// fragment. A URL that is no URI asks for itself, and one that is a URI without query and
/// fragment asks for its path.
pub proof fn url_asks_for_its_path(path: Seq<char>, query: Seq<char>)
    requires
        path.len() > 0,
        forall|i: int|
            0 <= i < path.len() ==> #[trigger] path[i] != '?' && path[i] != '#',
        query.len() > 0 ==> query[0] == '?' || query[0] == '#',
    ensures
        path[0] == '/' && uri_path(path + query) is Some ==> asked_path(path + query) == path,
        uri_path(path + query) is None ==> asked_path(path + query) == path + query,
        path[0] != '/' && uri_path(path) is Some ==> asked_path(path) == uri_path(path)->0,
        path[0] != '/' && uri_path(path) is Some && uri_path(path + query) is Some ==> asked_path(
            path + query,
        ) == uri_path(path)->0,
{
    lemma_query_is_cut(path, query);
    lemma_before_query_of_plain(path);
}

/// A path that was read in a URL is what the URL asks for; where none was read, it is the
/// URL itself.
pub proof fn read_path_is_asked_for(path: Seq<char>, url: Seq<char>)
    ensures
        path_or_whole(Some(path), url) == path,
        path_or_whole(None, url) == url,
{
}

/// How long the content at a path may be kept is decided by the directory that the path
/// begins with and by its file name alone. It may be kept for good below `_astro/`, and
/// where the name holds a `-` with eight letters or digits behind it. In all other cases a
/// client has to ask again.
pub proof fn cache_policy_of_a_path(dir: Seq<char>, name: Seq<char>, query: Seq<char>)
    requires
        dir.len() > 0 ==> dir.last() == '/',
        forall|i: int|
            0 <= i < dir.len() ==> #[trigger] dir[i] != '?' && dir[i] != '#',
        forall|i: int|
            0 <= i < name.len() ==> #[trigger] name[i] != '?' && name[i] != '#' && name[i] != '/',
        query.len() > 0 ==> query[0] == '?' || query[0] == '#',
    ensures
        ({
            let path = dir + name + query;
            let hashed = exists|at: int|
                0 <= at < name.len() - 8 && #[trigger] name[at] == '-' && forall|j: int|
                    at < j <= at + 8 ==> 'A' <= #[trigger] name[j] <= 'Z' || 'a' <= name[j] <= 'z'
                        || '0' <= name[j] <= '9';
            let forever = "/_astro/"@.is_prefix_of(path) || "_astro/"@.is_prefix_of(path) || hashed;
            &&& asset_cache_control(path) == if forever {
                "public, max-age=31536000, immutable"@
            } else {
                "no-cache"@
            }
            &&& static_cache_control(path) == if forever {
                "public, max-age=31536000, immutable"@
            } else {
                "no-cache, must-revalidate"@
            }
        }),
{
    let path = dir + name + query;
    let plain = dir + name;
    assert forall|i: int| 0 <= i < plain.len() implies !ends_path(plain[i]) by {
        if i < dir.len() {
            assert(plain[i] == dir[i]);
        } else {
            assert(plain[i] == name[i - dir.len()]);
        }
    }
    lemma_query_is_cut(plain, query);
    lemma_last_segment(dir, name);
    if has_content_hash(name) {
        let at = choose|at: int| hash_at(name, at);
        assert(name[at] == '-');
    }
    if exists|at: int|
        0 <= at < name.len() - 8 && #[trigger] name[at] == '-' && forall|j: int|
            at < j <= at + 8 ==> 'A' <= #[trigger] name[j] <= 'Z' || 'a' <= name[j] <= 'z' || '0'
                <= name[j] <= '9' {
        let at = choose|at: int|
            0 <= at < name.len() - 8 && #[trigger] name[at] == '-' && forall|j: int|
                at < j <= at + 8 ==> 'A' <= #[trigger] name[j] <= 'Z' || 'a' <= name[j] <= 'z'
                    || '0' <= name[j] <= '9';
        assert(hash_at(name, at));
    }
}

/// Everything below `_astro/` may be kept for good, whatever its name.
pub proof fn astro_chunks_are_kept(rest: Seq<char>)
    ensures
        asset_cache_control("/_astro/"@ + rest) == "public, max-age=31536000, immutable"@,
        asset_cache_control("_astro/"@ + rest) == "public, max-age=31536000, immutable"@,
        static_cache_control("/_astro/"@ + rest) == "public, max-age=31536000, immutable"@,
        static_cache_control("_astro/"@ + rest) == "public, max-age=31536000, immutable"@,
{
    assert("/_astro/"@ =~= ("/_astro/"@ + rest).subrange(0, "/_astro/"@.len() as int));
    assert("_astro/"@ =~= ("_astro/"@ + rest).subrange(0, "_astro/"@.len() as int));
}

/// A client has to ask again for everything that does not lie below `_astro/` and has no
/// `-` in its path.
pub proof fn paths_without_a_dash_are_revalidated(path: Seq<char>)
    requires
        !"/_astro/"@.is_prefix_of(path),
        !"_astro/"@.is_prefix_of(path),
        forall|i: int| 0 <= i < path.len() ==> #[trigger] path[i] != '-',
    ensures
        asset_cache_control(path) == "no-cache"@,
        static_cache_control(path) == "no-cache, must-revalidate"@,
{
    lemma_before_query_is_prefix(path);
    lemma_last_segment_is_suffix(before_query(path));
    let name = last_segment(before_query(path));
    let plain = before_query(path);
    assert forall|at: int| !hash_at(name, at) by {
        if 0 <= at < name.len() {
            assert(name[at] == plain[plain.len() - name.len() + at]);
            assert(plain[plain.len() - name.len() + at] == path[plain.len() - name.len() + at]);
        }
    }
}

proof fn lemma_last_segment(dir: Seq<char>, name: Seq<char>)
    requires
        dir.len() > 0 ==> dir.last() == '/',
        forall|i: int| 0 <= i < name.len() ==> #[trigger] name[i] != '/',
    ensures
        last_segment(dir + name) == name,
    decreases name.len(),
{
    if name.len() == 0 {
        assert(dir + name == dir);
    } else {
        lemma_last_segment(dir, name.drop_last());
        assert((dir + name).drop_last() == dir + name.drop_last());
        assert(name.drop_last().push(name.last()) == name);
    }
}

proof fn lemma_last_segment_is_suffix(text: Seq<char>)
    ensures
        last_segment(text).len() <= text.len(),
        last_segment(text) == text.skip(text.len() - last_segment(text).len()),
    decreases text.len(),
{
    if text.len() > 0 && text.last() != '/' {
        let front = text.drop_last();
        lemma_last_segment_is_suffix(front);
        let start = front.len() - last_segment(front).len();
        assert(text.skip(start) == front.skip(start).push(text.last()));
    } else {
        assert(text.skip(text.len() as int) == Seq::<char>::empty());
        assert(last_segment(text) == Seq::<char>::empty());
    }
}

proof fn lemma_before_query_is_prefix(text: Seq<char>)
    ensures
        before_query(text).is_prefix_of(text),
    decreases text.len(),
{
    if text.len() > 0 && !ends_path(text[0]) {
        let rest = text.skip(1);
        lemma_before_query_is_prefix(rest);
        let cut = before_query(rest);
        assert forall|i: int| 0 <= i < before_query(text).len() implies before_query(text)[i]
            == text[i] by {
            if i > 0 {
                assert(before_query(text)[i] == cut[i - 1]);
                assert(cut[i - 1] == rest.subrange(0, cut.len() as int)[i - 1]);
            }
        }
        assert(before_query(text) =~= text.subrange(0, before_query(text).len() as int));
    } else {
        assert(before_query(text) =~= text.subrange(0, 0));
    }
}

proof fn lemma_first_is_no_slash(path: Seq<char>)
    ensures
        without_slashes(path).len() > 0 ==> without_slashes(path)[0] != '/',
    decreases path.len(),
{
    if path.len() > 0 && path[0] == '/' {
        lemma_first_is_no_slash(path.skip(1));
    }
}

proof fn lemma_without_slashes_is_suffix(text: Seq<char>)
    ensures
        without_slashes(text).len() <= text.len(),
        without_slashes(text) == text.skip(text.len() - without_slashes(text).len()),
    decreases text.len(),
{
    if text.len() > 0 && text[0] == '/' {
        lemma_without_slashes_is_suffix(text.skip(1));
    }
}

proof fn lemma_before_query_of_plain(text: Seq<char>)
    requires
        forall|i: int| 0 <= i < text.len() ==> !ends_path(text[i]),
    ensures
        before_query(text) == text,
    decreases text.len(),
{
    if text.len() > 0 {
        lemma_before_query_of_plain(text.skip(1));
        assert(text == seq![text[0]] + text.skip(1));
    }
}

} // verus!
