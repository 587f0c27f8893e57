//! What a hook sees of a request and of its response.

use vstd::prelude::*;

use crate::headers::can_send;
use crate::response::sendable;
use crate::table::{entry_map, keys_differ, lemma_keys, with_entry};
use crate::text::converted;

verus! {

/// A request, as a hook sees it.
pub struct Request {
    url: String,
}

impl View for Request {
    type V = Seq<char>;

    closed spec fn view(&self) -> Seq<char> {
        self.url@
    }
}

impl Request {
    pub(crate) fn new(url: String) -> (r: Request)
        ensures
            r@ == url@,
    {
        Request { url }
    }

    /// The URL of the request.
    pub fn url(&self) -> (r: &str)
        ensures
            r@ == self@,
    {
        self.url.as_str()
    }
}

/// The headers of a response, which a hook may add to. Each name occurs once.
pub struct Response {
    headers: Vec<(String, String)>,
}

impl View for Response {
    type V = Map<Seq<char>, Seq<char>>;

    closed spec fn view(&self) -> Map<Seq<char>, Seq<char>> {
        entry_map(self.headers@)
    }
}

impl Response {
    #[verifier::type_invariant]
    spec fn well_formed(self) -> bool {
        keys_differ(self.headers@)
    }

    pub(crate) fn new() -> (r: Response)
        ensures
            r@ == Map::<Seq<char>, Seq<char>>::empty(),
    {
        Response { headers: Vec::new() }
    }

    /// Sets the header to the value, in place of the value that it had.
    pub fn add_header<H: Into<String>, V: Into<String>>(&mut self, header: H, value: V)
        ensures
            exists|h: String, v: String|
                converted(header, h) && converted(value, v) && final(self)@ == old(self)@.insert(
                    h@,
                    v@,
                ),
    {
        let h: String = header.into();
        let v: String = value.into();
        self.set(h, v);
        assert(converted(header, h) && converted(value, v));
    }

    fn set(&mut self, header: String, value: String)
        ensures
            final(self)@ == old(self)@.insert(header@, value@),
    {
        proof {
            use_type_invariant(&*self);
        }
        let mut headers: Vec<(String, String)> = Vec::new();
        std::mem::swap(&mut headers, &mut self.headers);
        self.headers = with_entry(headers, header, value);
    }

    /// The headers that can be sent.
    pub(crate) fn into_sendable(self) -> (r: Vec<(String, String)>)
        ensures
            keys_differ(r@),
            entry_map(r@) == sendable(self@),
    {
        proof {
            use_type_invariant(&self);
        }
        let headers = self.headers;
        let mut sent: Vec<(String, String)> = Vec::new();
        let mut i: usize = 0;
        assert(entry_map(sent@) =~= sendable(entry_map(headers@.take(0))));
        while i < headers.len()
            invariant
                i <= headers@.len(),
                keys_differ(headers@),
                keys_differ(sent@),
                entry_map(sent@) == sendable(entry_map(headers@.take(i as int))),
            decreases headers@.len() - i,
        {
            let ghost done = headers@.take(i as int);
            let ghost sent_before = sent@;
            let ghost entry = headers@[i as int];
            let name = headers[i].0.as_str();
            let value = headers[i].1.as_str();
            proof {
                lemma_keys(done, entry.0@);
                lemma_keys(sent@, entry.0@);
                assert(headers@.take(i + 1).drop_last() == done);
            }
            if can_send(name, value) {
                sent.push((name.to_owned(), value.to_owned()));
                assert(sent@.drop_last() == sent_before);
            }
            i += 1;
            assert(entry_map(sent@) =~= sendable(entry_map(headers@.take(i as int))));
        }
        assert(headers@.take(i as int) == headers@);
        sent
    }
}

} // verus!
