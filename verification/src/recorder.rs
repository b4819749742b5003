//! The bookkeeping of HAR recording: the requests that wait for their
//! response and their end, keyed by request id, and the exchanges that are
//! complete and become HAR entries.
//!
//! What a request and a response carry (timestamps, headers, sizes) is the
//! recorder's business; this book only decides when an exchange is complete,
//! when it is dropped, and what it is made of.

use vstd::prelude::*;

use crate::keyed::{distinct_keys, keyed, lemma_keyed_index, lemma_keyed_push, lemma_keyed_remove, position_of};

verus! {

/// A request that is being recorded.
pub struct Exchange<P, R> {
    /// What was sent.
    pub request: P,
    /// The HTTP version of the request, as the response reported it.
    pub http_version: String,
    /// The response, once it has arrived.
    pub response: Option<R>,
}

/// An exchange that is complete: a request and its response.
pub struct CompletedExchange<P, R> {
    pub request: P,
    pub http_version: String,
    pub response: R,
}

/// The requests being recorded, by request id.
pub struct PendingRequests<P, R> {
    entries: Vec<(String, Exchange<P, R>)>,
}

impl<P, R> View for PendingRequests<P, R> {
    type V = Map<Seq<char>, Exchange<P, R>>;

    closed spec fn view(&self) -> Map<Seq<char>, Exchange<P, R>> {
        keyed(self.entries@)
    }
}

impl<P, R> PendingRequests<P, R> {
    /// No request id is recorded twice.
    pub closed spec fn inv(&self) -> bool {
        distinct_keys(self.entries@)
    }

    /// Nothing recorded yet.
    pub fn new() -> (b: Self)
        ensures
            b.inv(),
            b@ == Map::<Seq<char>, Exchange<P, R>>::empty(),
    {
        let b = PendingRequests { entries: Vec::new() };
        assert(b@ =~= Map::<Seq<char>, Exchange<P, R>>::empty());
        b
    }

    fn take(&mut self, id: &str) -> (r: Option<Exchange<P, R>>)
        requires
            old(self).inv(),
        ensures
            final(self).inv(),
            final(self)@ == old(self)@.remove(id@),
            match r {
                Some(e) => old(self)@.contains_key(id@) && e == old(self)@[id@],
                None => !old(self)@.contains_key(id@),
            },
    {
        match position_of(&self.entries, id) {
            Some(i) => {
                proof {
                    lemma_keyed_index(self.entries@, i as int);
                    lemma_keyed_remove(self.entries@, i as int);
                }
                let (_, e) = self.entries.remove(i);
                Some(e)
            },
            None => {
                assert(self@ =~= self@.remove(id@));
                None
            },
        }
    }

    fn put(&mut self, id: String, e: Exchange<P, R>)
        requires
            old(self).inv(),
            !old(self)@.contains_key(id@),
        ensures
            final(self).inv(),
            final(self)@ == old(self)@.insert(id@, e),
    {
        proof {
            lemma_keyed_push(self.entries@, (id, e));
        }
        self.entries.push((id, e));
    }

    /// A request was sent (`Network.requestWillBeSent`). When it follows a
    /// redirect, the exchange pending under the same id is complete with the
    /// redirect response and comes back; the new request then waits, with
    /// no response yet and HTTP/1.1 until its response tells otherwise, in
    /// place of anything pending under its id.
    pub fn request_will_be_sent(&mut self, id: String, request: P, redirect_response: Option<R>) -> (done: Option<CompletedExchange<P, R>>)
        requires
            old(self).inv(),
        ensures
            final(self).inv(),
            final(self)@.dom() == old(self)@.dom().insert(id@),
            final(self)@[id@].request == request,
            final(self)@[id@].http_version@ == "HTTP/1.1"@,
            final(self)@[id@].response is None,
            forall|k: Seq<char>| k != id@ && #[trigger] old(self)@.contains_key(k) ==> final(self)@[k] == old(self)@[k],
            match done {
                Some(c) => redirect_response == Some(c.response) && old(self)@.contains_key(id@)
                    && c.request == old(self)@[id@].request
                    && c.http_version == old(self)@[id@].http_version,
                None => redirect_response is None || !old(self)@.contains_key(id@),
            },
    {
        let done = match redirect_response {
            Some(resp) => match self.take(id.as_str()) {
                Some(prev) => Some(
                    CompletedExchange { request: prev.request, http_version: prev.http_version, response: resp },
                ),
                None => None,
            },
            None => {
                let _replaced = self.take(id.as_str());
                None
            },
        };
        let e = Exchange { request, http_version: "HTTP/1.1".to_owned(), response: None };
        self.put(id, e);
        proof {
            assert(self@.dom() =~= old(self)@.dom().insert(id@));
        }
        done
    }

    /// The response to a pending request arrived
    /// (`Network.responseReceived`): it is kept, and the request's HTTP
    /// version becomes the response's. A response to no pending request is
    /// ignored.
    pub fn response_received(&mut self, id: &str, http_version: String, response: R)
        requires
            old(self).inv(),
        ensures
            final(self).inv(),
            old(self)@.contains_key(id@) ==> final(self)@ == old(self)@.insert(
                id@,
                Exchange { request: old(self)@[id@].request, http_version, response: Some(response) },
            ),
            !old(self)@.contains_key(id@) ==> final(self)@ == old(self)@,
    {
        match self.take(id) {
            Some(prev) => {
                let e = Exchange { request: prev.request, http_version, response: Some(response) };
                self.put(id.to_owned(), e);
                assert(self@ =~= old(self)@.insert(
                    id@,
                    Exchange { request: old(self)@[id@].request, http_version, response: Some(response) },
                ));
            },
            None => {
                assert(self@ =~= old(self)@);
            },
        }
    }

    /// A request finished loading (`Network.loadingFinished`): it stops
    /// being pending, and its exchange is complete when its response had
    /// arrived.
    pub fn loading_finished(&mut self, id: &str) -> (done: Option<CompletedExchange<P, R>>)
        requires
            old(self).inv(),
        ensures
            final(self).inv(),
            final(self)@ == old(self)@.remove(id@),
            match done {
                Some(c) => old(self)@.contains_key(id@) && old(self)@[id@].response == Some(c.response)
                    && c.request == old(self)@[id@].request
                    && c.http_version == old(self)@[id@].http_version,
                None => !old(self)@.contains_key(id@) || old(self)@[id@].response is None,
            },
    {
        match self.take(id) {
            Some(e) => match e.response {
                Some(resp) => Some(
                    CompletedExchange { request: e.request, http_version: e.http_version, response: resp },
                ),
                None => None,
            },
            None => None,
        }
    }

    /// A request failed (`Network.loadingFailed`): it is forgotten, with
    /// nothing to record.
    pub fn loading_failed(&mut self, id: &str)
        requires
            old(self).inv(),
        ensures
            final(self).inv(),
            final(self)@ == old(self)@.remove(id@),
    {
        let _dropped = self.take(id);
    }
}

} // verus!
