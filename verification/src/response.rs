//! Answers to requests, from the headers that they start with to what is sent.

use vstd::prelude::*;

use crate::headers::is_sendable;
use crate::message::{Request, Response};
use crate::mime::{content_path, extension, mime_of, mime_of_extension};
use crate::path::Platform;
use crate::table::{entry_map, keys_differ};
use crate::text::{copy_bytes, lemma_ascii};

verus! {

/// The views of a list of names and values.
pub open spec fn pair_views(pairs: Seq<(&str, &str)>) -> Seq<(Seq<char>, Seq<char>)> {
    pairs.map_values(|p: (&str, &str)| (p.0@, p.1@))
}

/// `headers` after each of `extra` has been set, in order.
pub open spec fn with_headers(
    headers: Map<Seq<char>, Seq<char>>,
    extra: Seq<(Seq<char>, Seq<char>)>,
) -> Map<Seq<char>, Seq<char>>
    decreases extra.len(),
{
    if extra.len() == 0 {
        headers
    } else {
        with_headers(headers, extra.drop_last()).insert(extra.last().0, extra.last().1)
    }
}

/// The headers of every file.
pub open spec fn base_headers(mime: Seq<char>, cache_control: Seq<char>) -> Map<
    Seq<char>,
    Seq<char>,
> {
    Map::empty().insert("Content-Type"@, mime).insert("Cache-Control"@, cache_control).insert(
        "Access-Control-Allow-Origin"@,
        "*"@,
    ).insert("Cross-Origin-Resource-Policy"@, "cross-origin"@)
}

/// The headers of a file, of which the content may be Brotli-compressed.
pub open spec fn file_headers(
    mime: Seq<char>,
    brotli: bool,
    cache_control: Seq<char>,
    extra: Seq<(Seq<char>, Seq<char>)>,
) -> Map<Seq<char>, Seq<char>> {
    let base = base_headers(mime, cache_control);
    let encoded = if brotli {
        base.insert("Content-Encoding"@, "br"@).insert("Vary"@, "Accept-Encoding"@)
    } else {
        base
    };
    with_headers(encoded, extra)
}

/// The headers of an embedded asset.
pub open spec fn asset_headers(
    mime: Seq<char>,
    cache_control: Seq<char>,
    csp: Option<Seq<char>>,
) -> Map<Seq<char>, Seq<char>> {
    let base = Map::empty().insert("Content-Type"@, mime).insert(
        "Cache-Control"@,
        cache_control,
    ).insert("Access-Control-Allow-Origin"@, "*"@);
    match csp {
        Some(policy) => base.insert("Content-Security-Policy"@, policy),
        None => base,
    }
}

/// The headers that can be sent, out of `headers`.
pub open spec fn sendable(headers: Map<Seq<char>, Seq<char>>) -> Map<Seq<char>, Seq<char>> {
    headers.restrict(
        Set::new(|name: Seq<char>| headers.contains_key(name) && is_sendable(name, headers[name])),
    )
}

/// The headers that a file is answered with before a hook has seen them.
pub fn file_response(
    mime: &str,
    brotli: bool,
    cache_control: &str,
    extra_headers: &[(&str, &str)],
) -> (r: Response)
    ensures
        r@ == file_headers(mime@, brotli, cache_control@, pair_views(extra_headers@)),
{
    let mut response = Response::new();
    response.add_header("Content-Type", mime);
    response.add_header("Cache-Control", cache_control);
    response.add_header("Access-Control-Allow-Origin", "*");
    response.add_header("Cross-Origin-Resource-Policy", "cross-origin");
    assert(response@ == base_headers(mime@, cache_control@));
    if brotli {
        response.add_header("Content-Encoding", "br");
        response.add_header("Vary", "Accept-Encoding");
    }
    let ghost start = response@;
    let ghost extra = pair_views(extra_headers@);
    let mut i: usize = 0;
    assert(extra.take(0).len() == 0);
    while i < extra_headers.len()
        invariant
            i <= extra_headers@.len(),
            extra == pair_views(extra_headers@),
            response@ == with_headers(start, extra.take(i as int)),
        decreases extra_headers@.len() - i,
    {
        let (name, value) = extra_headers[i];
        response.add_header(name, value);
        i += 1;
        assert(extra.take(i as int).drop_last() == extra.take(i - 1));
        assert(extra.take(i as int).last() == (name@, value@));
    }
    assert(extra.take(i as int) == extra);
    response
}

/// The headers that an embedded asset is answered with before a hook has seen them.
pub fn asset_response(mime: &str, cache_control: &str, csp: Option<String>) -> (r: Response)
    ensures
        r@ == asset_headers(
            mime@,
            cache_control@,
            match csp {
                Some(policy) => Some(policy@),
                None => None,
            },
        ),
{
    let mut response = Response::new();
    response.add_header("Content-Type", mime);
    response.add_header("Cache-Control", cache_control);
    response.add_header("Access-Control-Allow-Origin", "*");
    if let Some(policy) = csp {
        response.add_header("Content-Security-Policy", policy);
    }
    response
}

/// The answer to a request.
pub enum Answer {
    /// Nothing is there.
    NotFound,
    /// Some content is there. A hook may still change the headers of the response.
    Content { request: Request, response: Response, body: Vec<u8> },
}

/// What an [`Answer`] holds.
#[verifier::ext_equal]
pub enum AnswerView {
    NotFound,
    Content { url: Seq<char>, headers: Map<Seq<char>, Seq<char>>, body: Seq<u8> },
}

impl View for Answer {
    type V = AnswerView;

    open spec fn view(&self) -> AnswerView {
        match self {
            Answer::NotFound => AnswerView::NotFound,
            Answer::Content { request, response, body } => AnswerView::Content {
                url: request@,
                headers: response@,
                body: body@,
            },
        }
    }
}

/// What is sent to the client.
pub struct Outgoing {
    pub status: u16,
    pub headers: Vec<(String, String)>,
    pub body: Vec<u8>,
}

/// The hook takes any request and any response.
pub open spec fn takes_any<F: Fn(&Request, &mut Response)>(hook: F) -> bool {
    forall|request: &Request, response: &mut Response|
        #[trigger] call_requires(hook, (request, response))
}

impl Answer {
    /// The answer once the hook has seen it, where there is a hook. It is shown content
    /// only, and what it may change are the headers.
    pub fn shown_to<F: Fn(&Request, &mut Response)>(self, hook: &Option<F>) -> (r: Answer)
        requires
            hook matches Some(f) ==> takes_any(*f),
        ensures
            match (self, *hook) {
                (Answer::Content { request, response, body }, Some(f)) => {
                    &&& r matches Answer::Content {
                        request: shown,
                        response: changed,
                        body: sent,
                    }
                    &&& shown == request
                    &&& sent == body
                    &&& exists|p: &mut Response|
                        #[trigger] call_ensures(f, (&request, p), ()) && *p == response
                            && *final(p) == changed
                },
                _ => r == self,
            },
    {
        match (self, hook) {
            (Answer::Content { request, response, body }, Some(f)) => {
                let mut changed = response;
                f(&request, &mut changed);
                Answer::Content { request, response: changed, body }
            },
            (answer, _) => answer,
        }
    }

    /// What is sent for the answer: a bare 404, or the content with each header that can
    /// be sent.
    pub fn finish(self) -> (r: Outgoing)
        ensures
            keys_differ(r.headers@),
            match self@ {
                AnswerView::NotFound => {
                    &&& r.status == 404
                    &&& r.headers@.len() == 0
                    &&& r.body@ == vstd::utf8::encode_utf8("404 Not Found"@)
                },
                AnswerView::Content { url, headers, body } => {
                    &&& r.status == 200
                    &&& entry_map(r.headers@) == sendable(headers)
                    &&& r.body@ == body
                },
            },
    {
        match self {
            Answer::NotFound => Outgoing {
                status: 404,
                headers: Vec::new(),
                body: copy_bytes("404 Not Found".as_bytes()),
            },
            Answer::Content { request: _, response, body } => Outgoing {
                status: 200,
                headers: response.into_sendable(),
                body,
            },
        }
    }
}

/// A file is announced as Brotli-compressed exactly where it is, and then caches are told
/// that the encoding depends on the request.
pub proof fn compression_is_announced(mime: Seq<char>, brotli: bool, cache_control: Seq<char>)
    ensures
        ({
            let headers = file_headers(mime, brotli, cache_control, seq![]);
            &&& headers.contains_key("Content-Encoding"@) == brotli
            &&& headers.contains_key("Vary"@) == brotli
            &&& brotli ==> headers["Content-Encoding"@] == "br"@
            &&& brotli ==> headers["Vary"@] == "Accept-Encoding"@
        }),
{
    lemma_header_names();
}

/// Every file says of what type it is and how long it may be kept, and may be used from
/// any origin.
pub proof fn file_headers_are_complete(mime: Seq<char>, brotli: bool, cache_control: Seq<char>)
    ensures
        ({
            let headers = file_headers(mime, brotli, cache_control, seq![]);
            &&& headers.contains_pair("Content-Type"@, mime)
            &&& headers.contains_pair("Cache-Control"@, cache_control)
            &&& headers.contains_pair("Access-Control-Allow-Origin"@, "*"@)
            &&& headers.contains_pair("Cross-Origin-Resource-Policy"@, "cross-origin"@)
        }),
{
    lemma_header_names();
}

/// All headers of a file are sent, unless a hook adds others.
pub proof fn file_headers_are_sent(
    platform: Platform,
    path: Seq<u8>,
    brotli: bool,
    cache_control: Seq<char>,
)
    requires
        vstd::utf8::is_ascii_chars(cache_control),
    ensures
        sendable(file_headers(mime_of(platform, path), brotli, cache_control, seq![])) == file_headers(
            mime_of(platform, path),
            brotli,
            cache_control,
            seq![],
        ),
{
    let headers = file_headers(mime_of(platform, path), brotli, cache_control, seq![]);
    lemma_header_names();
    lemma_mime_is_ascii(extension(content_path(platform, path)));
    reveal_strlit("*");
    reveal_strlit("cross-origin");
    reveal_strlit("br");
    reveal_strlit("Accept-Encoding");
    assert forall|name: Seq<char>| headers.contains_key(name) implies is_sendable(
        name,
        headers[name],
    ) by {}
    assert(sendable(headers) =~= headers);
}

/// The header names differ from one another, and all are ASCII.
proof fn lemma_header_names()
    ensures
        "Content-Type"@.len() == 12,
        "Cache-Control"@.len() == 13,
        "Access-Control-Allow-Origin"@.len() == 27,
        "Cross-Origin-Resource-Policy"@.len() == 28,
        "Content-Encoding"@.len() == 16,
        "Vary"@.len() == 4,
        vstd::utf8::is_ascii_chars("Content-Type"@),
        vstd::utf8::is_ascii_chars("Cache-Control"@),
        vstd::utf8::is_ascii_chars("Access-Control-Allow-Origin"@),
        vstd::utf8::is_ascii_chars("Cross-Origin-Resource-Policy"@),
        vstd::utf8::is_ascii_chars("Content-Encoding"@),
        vstd::utf8::is_ascii_chars("Vary"@),
{
    reveal_strlit("Content-Type");
    reveal_strlit("Cache-Control");
    reveal_strlit("Access-Control-Allow-Origin");
    reveal_strlit("Cross-Origin-Resource-Policy");
    reveal_strlit("Content-Encoding");
    reveal_strlit("Vary");
}

proof fn lemma_mime_is_ascii(extension: Option<Seq<u8>>)
    ensures
        vstd::utf8::is_ascii_chars(mime_of_extension(extension)),
{
    reveal_strlit("application/javascript; charset=utf-8");
    reveal_strlit("text/css; charset=utf-8");
    reveal_strlit("application/json; charset=utf-8");
    reveal_strlit("text/html; charset=utf-8");
    reveal_strlit("image/svg+xml");
    reveal_strlit("application/wasm");
    reveal_strlit("image/png");
    reveal_strlit("image/jpeg");
    reveal_strlit("image/gif");
    reveal_strlit("image/webp");
    reveal_strlit("font/ttf");
    reveal_strlit("font/otf");
    reveal_strlit("font/woff");
    reveal_strlit("font/woff2");
    reveal_strlit("application/vnd.ms-fontobject");
    reveal_strlit("image/x-icon");
    reveal_strlit("application/xml; charset=utf-8");
    reveal_strlit("text/plain; charset=utf-8");
    reveal_strlit("application/toml; charset=utf-8");
    reveal_strlit("application/octet-stream");
}

/// The headers of a file, in full: its type, how long it may be kept and from where it may
/// be used; the encoding where it is compressed; and no other.
pub proof fn file_headers_in_full(mime: Seq<char>, brotli: bool, cache_control: Seq<char>)
    ensures
        ({
            let headers = file_headers(mime, brotli, cache_control, seq![]);
            &&& headers.contains_pair("Content-Type"@, mime)
            &&& headers.contains_pair("Cache-Control"@, cache_control)
            &&& headers.contains_pair("Access-Control-Allow-Origin"@, "*"@)
            &&& headers.contains_pair("Cross-Origin-Resource-Policy"@, "cross-origin"@)
            &&& brotli ==> headers.contains_pair("Content-Encoding"@, "br"@)
                && headers.contains_pair("Vary"@, "Accept-Encoding"@)
            &&& forall|name: Seq<char>| #[trigger]
                headers.contains_key(name) ==> {
                    ||| name == "Content-Type"@
                    ||| name == "Cache-Control"@
                    ||| name == "Access-Control-Allow-Origin"@
                    ||| name == "Cross-Origin-Resource-Policy"@
                    ||| brotli && (name == "Content-Encoding"@ || name == "Vary"@)
                }
        }),
{
    lemma_header_names();
}

/// The headers of an embedded asset, in full: its type, how long it may be kept and that it
/// may be used from any origin; its policy where it has one; and no other.
pub proof fn asset_headers_in_full(
    mime: Seq<char>,
    cache_control: Seq<char>,
    csp: Option<Seq<char>>,
)
    ensures
        ({
            let headers = asset_headers(mime, cache_control, csp);
            &&& headers.contains_pair("Content-Type"@, mime)
            &&& headers.contains_pair("Cache-Control"@, cache_control)
            &&& headers.contains_pair("Access-Control-Allow-Origin"@, "*"@)
            &&& csp matches Some(policy) ==> headers.contains_pair(
                "Content-Security-Policy"@,
                policy,
            )
            &&& forall|name: Seq<char>| #[trigger]
                headers.contains_key(name) ==> {
                    ||| name == "Content-Type"@
                    ||| name == "Cache-Control"@
                    ||| name == "Access-Control-Allow-Origin"@
                    ||| csp is Some && name == "Content-Security-Policy"@
                }
        }),
{
    lemma_header_names();
    reveal_strlit("Content-Security-Policy");
}

/// Each further header of a file is set on top of those before it.
pub proof fn further_headers_are_set_in_order(
    mime: Seq<char>,
    brotli: bool,
    cache_control: Seq<char>,
    extra: Seq<(Seq<char>, Seq<char>)>,
    name: Seq<char>,
    value: Seq<char>,
)
    ensures
        file_headers(mime, brotli, cache_control, extra.push((name, value))) == file_headers(
            mime,
            brotli,
            cache_control,
            extra,
        ).insert(name, value),
{
    assert(extra.push((name, value)).drop_last() == extra);
}

/// The further headers are seen as they are given.
pub proof fn further_headers_are_all_seen(pairs: Seq<(&str, &str)>)
    ensures
        pair_views(pairs).len() == pairs.len(),
        forall|i: int|
            0 <= i < pairs.len() ==> #[trigger] pair_views(pairs)[i] == (pairs[i].0@, pairs[i].1@),
{
}

/// Of the headers exactly those are sent whose name and value are ASCII, each with its own
/// value.
pub proof fn ascii_headers_are_sent(
    headers: Map<Seq<char>, Seq<char>>,
    name: Seq<char>,
    value: Seq<char>,
)
    ensures
        sendable(headers).contains_pair(name, value) <==> {
            &&& headers.contains_pair(name, value)
            &&& forall|i: int| 0 <= i < name.len() ==> #[trigger] name[i] <= '\u{7f}'
            &&& forall|i: int| 0 <= i < value.len() ==> #[trigger] value[i] <= '\u{7f}'
        },
{
    if forall|i: int| 0 <= i < name.len() ==> #[trigger] name[i] <= '\u{7f}' {
        lemma_ascii(name);
    }
    if forall|i: int| 0 <= i < value.len() ==> #[trigger] value[i] <= '\u{7f}' {
        lemma_ascii(value);
    }
}

} // verus!
