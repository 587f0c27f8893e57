//! HTTP headers: which of them a request may carry, and which can be sent.

use vstd::prelude::*;

use crate::text::{contains, contains_text, lower_char, occurs_at, same_ignoring_case};

verus! {

/// The views of a list of headers.
pub open spec fn header_views(headers: Seq<(String, String)>) -> Seq<(Seq<char>, Seq<char>)> {
    headers.map_values(|h: (String, String)| (h.0@, h.1@))
}

/// The field is the named one, in whichever case its letters are.
pub open spec fn is_field(field: Seq<char>, name: Seq<char>) -> bool {
    vstd::utf8::is_ascii_chars(field) && same_ignoring_case(field, name)
}

/// One of the headers is an `Accept-Encoding` that speaks of `br`.
pub open spec fn asks_for_brotli(headers: Seq<(Seq<char>, Seq<char>)>) -> bool {
    exists|i: int|
        0 <= i < headers.len() && is_field((#[trigger] headers[i]).0, "accept-encoding"@)
            && contains_text(headers[i].1, "br"@)
}

/// A header can be sent where its name and its value are ASCII.
pub open spec fn is_sendable(name: Seq<char>, value: Seq<char>) -> bool {
    vstd::utf8::is_ascii_chars(name) && vstd::utf8::is_ascii_chars(value)
}

/// `tiny_http::HeaderField::equiv`: whether a field with this text is the named one, in
/// whichever case the ASCII letters are. `HeaderField::from_bytes` makes a field of ASCII
/// text only, so no other text is the named field.
#[verifier::external_body]
fn field_is(field: &str, name: &'static str) -> (r: bool)
    ensures
        r == is_field(field@, name@),
{
    match tiny_http::HeaderField::from_bytes(field.as_bytes()) {
        Ok(made) => made.equiv(name),
        Err(_) => false,
    }
}

/// `tiny_http::Header::from_bytes`: makes a header of a name and a value exactly where
/// both are ASCII.
#[verifier::external_body]
pub(crate) fn can_send(name: &str, value: &str) -> (r: bool)
    ensures
        r == is_sendable(name@, value@),
{
    tiny_http::Header::from_bytes(name.as_bytes(), value.as_bytes()).is_ok()
}

/// Whether a request with these headers takes Brotli-compressed content.
pub fn accepts_brotli(headers: &Vec<(String, String)>) -> (r: bool)
    ensures
        r == asks_for_brotli(header_views(headers@)),
{
    let mut i: usize = 0;
    while i < headers.len()
        invariant
            i <= headers@.len(),
            forall|j: int|
                0 <= j < i ==> !(is_field(header_views(headers@)[j].0, "accept-encoding"@)
                    && contains_text(header_views(headers@)[j].1, "br"@)),
        decreases headers@.len() - i,
    {
        assert(header_views(headers@)[i as int] == (headers@[i as int].0@, headers@[i as int].1@));
        if field_is(headers[i].0.as_str(), "accept-encoding") && contains(
            headers[i].1.as_str(),
            "br",
        ) {
            return true;
        }
        i += 1;
    }
    false
}

/// A request takes Brotli where one of its headers is `Accept-Encoding`, in whichever case
/// its letters are, and `br` stands anywhere in that header's value. Which headers come
/// before and after it does not matter.
pub proof fn br_anywhere_in_accept_encoding_asks_for_brotli(
    front: Seq<(Seq<char>, Seq<char>)>,
    field: Seq<char>,
    before: Seq<char>,
    after: Seq<char>,
    back: Seq<(Seq<char>, Seq<char>)>,
)
    requires
        field.len() == 15,
        forall|i: int|
            0 <= i < 15 ==> #[trigger] field[i] == "accept-encoding"@[i] || field[i]
                == "ACCEPT-ENCODING"@[i],
    ensures
        asks_for_brotli(front.push((field, before + "br"@ + after)) + back),
{
    let headers = front.push((field, before + "br"@ + after)) + back;
    let at = front.len() as int;
    let value = before + "br"@ + after;
    assert(headers[at] == (field, value));
    reveal_strlit("accept-encoding");
    reveal_strlit("ACCEPT-ENCODING");
    let lower = field.map_values(|c: char| lower_char(c));
    let name = "accept-encoding"@.map_values(|c: char| lower_char(c));
    assert forall|i: int| 0 <= i < 15 implies lower[i] == name[i] by {
        assert(field[i] == "accept-encoding"@[i] || field[i] == "ACCEPT-ENCODING"@[i]);
    }
    assert(lower =~= name);
    assert(vstd::utf8::is_ascii_chars(field)) by {
        assert forall|i: int| 0 <= i < field.len() implies '\0' <= #[trigger] field[i]
            <= '\u{7f}' by {
            assert(field[i] == "accept-encoding"@[i] || field[i] == "ACCEPT-ENCODING"@[i]);
        }
    }
    assert(value.subrange(before.len() as int, (before.len() + "br"@.len()) as int) =~= "br"@);
    assert(occurs_at(value, "br"@, before.len() as int));
}

/// A request takes no Brotli where no header with the letters of `Accept-Encoding` holds a
/// `b` and an `r` behind it in its value.
pub proof fn no_br_asks_for_no_brotli(headers: Seq<(Seq<char>, Seq<char>)>)
    requires
        forall|i: int|
            0 <= i < headers.len() ==> {
                ||| (#[trigger] headers[i]).0.len() != 15
                ||| exists|j: int|
                    0 <= j < 15 && headers[i].0[j] != "accept-encoding"@[j] && #[trigger] headers[i].0[j]
                        != "ACCEPT-ENCODING"@[j]
                ||| forall|j: int|
                    0 <= j < headers[i].1.len() - 1 ==> !(#[trigger] headers[i].1[j] == 'b'
                        && headers[i].1[j + 1] == 'r')
            },
    ensures
        !asks_for_brotli(headers),
{
    reveal_strlit("accept-encoding");
    reveal_strlit("ACCEPT-ENCODING");
    reveal_strlit("br");
    if asks_for_brotli(headers) {
        let i = choose|i: int|
            0 <= i < headers.len() && is_field((#[trigger] headers[i]).0, "accept-encoding"@)
                && contains_text(headers[i].1, "br"@);
        let (field, value) = headers[i];
        let lower = field.map_values(|c: char| lower_char(c));
        let name = "accept-encoding"@.map_values(|c: char| lower_char(c));
        assert(lower == name);
        assert(lower.len() == field.len() && name.len() == 15);
        assert forall|j: int| 0 <= j < 15 implies #[trigger] field[j] == "accept-encoding"@[j]
            || field[j] == "ACCEPT-ENCODING"@[j] by {
            assert(lower[j] == name[j]);
            assert(lower_char(field[j]) == lower_char("accept-encoding"@[j]));
        }
        let at = choose|at: int| occurs_at(value, "br"@, at);
        let found = value.subrange(at, at + 2);
        assert(found[0] == value[at] && found[1] == value[at + 1]);
        assert(false);
    }
}

/// The names and values that a request carries are all seen, in order.
pub proof fn every_header_is_seen(headers: Seq<(String, String)>)
    ensures
        header_views(headers).len() == headers.len(),
        forall|i: int|
            0 <= i < headers.len() ==> #[trigger] header_views(headers)[i] == (
                headers[i].0@,
                headers[i].1@,
            ),
{
}

} // verus!
