//! The fetch orchestrator as a state machine. It decides what to do next
//! (deliver text, read a file, or connect and send a request) and how to
//! react to a response (follow a redirect, or decode, cache and deliver the
//! body); the caller performs the I/O and feeds the results back.
use vstd::prelude::*;
use vstd::utf8::{decode_utf8, valid_utf8};

use crate::bytes::starts_with;
use crate::cache::{is_fresh, should_cache_spec, EntryView, ResponseCache};
use crate::decode::{decode_body, decoded_spec, text_of};
use crate::error::FetchError;
use crate::http::{find_header, header_value, headers_view, location_bytes, location_word,
    request_bytes, request_spec, Response};
use crate::url::{cache_key_spec, resolved_spec, has_view_source, Target, TargetView, URLHandler};

verus! {

/// How many redirects one fetch follows.
pub const REDIRECT_LIMIT: u64 = 10;

/// What the caller is to do next.
#[derive(Debug, Clone)]
pub enum Action {
    /// Connect to `host:port` (over TLS when `tls`), send `request`, and hand
    /// the response back through [`Fetch::on_response`].
    Connect { host: Vec<u8>, port: u16, tls: bool, request: Vec<u8> },
    /// Read the file at `path`; its text is the result.
    ReadFile { path: Vec<u8> },
    /// The fetch is done with this text.
    Deliver(String),
    /// The fetch failed.
    Fail(FetchError),
}

pub enum ActionView {
    Connect { host: Seq<u8>, port: u16, tls: bool, request: Seq<u8> },
    ReadFile { path: Seq<u8> },
    Deliver(Seq<char>),
    Fail(FetchError),
}

impl View for Action {
    type V = ActionView;

    open spec fn view(&self) -> ActionView {
        match self {
            Action::Connect { host, port, tls, request } => ActionView::Connect {
                host: host@,
                port: *port,
                tls: *tls,
                request: request@,
            },
            Action::ReadFile { path } => ActionView::ReadFile { path: path@ },
            Action::Deliver(s) => ActionView::Deliver(s@),
            Action::Fail(e) => ActionView::Fail(*e),
        }
    }
}

/// Text read from bytes, or an encoding failure.
pub open spec fn text_action(b: Seq<u8>) -> ActionView {
    if valid_utf8(b) {
        ActionView::Deliver(decode_utf8(b))
    } else {
        ActionView::Fail(FetchError::EncodingError)
    }
}

/// The cache entry that stands for a target.
pub open spec fn cached_for(cache: ResponseCache, t: TargetView) -> Option<EntryView> {
    match cache_key_spec(t) {
        Some(k) => cache.entry(k),
        None => None,
    }
}

/// The next step for a target: inline content is delivered, a file is read,
/// a network target is served from a fresh cache entry or else fetched.
pub open spec fn action_spec(t: TargetView, cached: Option<EntryView>, now: u64) -> ActionView {
    match t {
        TargetView::About { data } => text_action(data),
        TargetView::Data { data, .. } => text_action(data),
        TargetView::File { path } => ActionView::ReadFile { path },
        TargetView::Http { host, port, path } => match cached {
            Some(e) if is_fresh(e, now) => ActionView::Deliver(e.content),
            _ => ActionView::Connect { host, port, tls: false, request: request_spec(host, path) },
        },
        TargetView::Https { host, port, path } => match cached {
            Some(e) if is_fresh(e, now) => ActionView::Deliver(e.content),
            _ => ActionView::Connect { host, port, tls: true, request: request_spec(host, path) },
        },
    }
}

/// Where a redirect leads: a location that starts with `/` replaces only
/// the path; any other location is resolved as a URL of its own.
pub open spec fn redirect_target(t: TargetView, location: Seq<u8>) -> TargetView {
    if starts_with(location, seq![47u8]) {
        match t {
            TargetView::Http { host, port, .. } => TargetView::Http { host, port, path: location },
            TargetView::Https { host, port, .. } => TargetView::Https {
                host,
                port,
                path: location,
            },
            other => other,
        }
    } else {
        resolved_spec(location)
    }
}

pub open spec fn is_network(t: TargetView) -> bool {
    t is Http || t is Https
}

pub open spec fn is_redirect(status: Seq<u8>) -> bool {
    status.len() > 0 && status[0] == 51
}

/// One fetch in progress: the URL it is at and the redirects followed so
/// far.
#[derive(Debug, Clone)]
pub struct Fetch {
    pub handler: URLHandler,
    pub redirects: u64,
}

impl Fetch {
    /// A fetch of `handler` that has followed no redirect.
    pub fn new(handler: URLHandler) -> (r: Fetch)
        ensures
            r.handler == handler,
            r.redirects == 0,
    {
        Fetch { handler, redirects: 0 }
    }

    /// The next step for the current URL, given the cache at time `now`.
    pub fn next_action(&self, cache: &ResponseCache, now: u64) -> (r: Action)
        ensures
            r@ == action_spec(self.handler.target@, cached_for(*cache, self.handler.target@), now),
    {
        match &self.handler.target {
            Target::About { data } => text_action_of(data),
            Target::Data { data, .. } => text_action_of(data),
            Target::File { path } => Action::ReadFile { path: path.clone() },
            Target::Http { host, port, path } | Target::Https { host, port, path } => {
                let tls = match &self.handler.target {
                    Target::Https { .. } => true,
                    _ => false,
                };
                match self.handler.cache_key() {
                    Some(key) => match cache.check_cache(key.as_slice(), now) {
                        Some(text) => {
                            return Action::Deliver(text);
                        },
                        None => {},
                    },
                    None => {},
                }
                Action::Connect {
                    host: host.clone(),
                    port: *port,
                    tls,
                    request: request_bytes(host.as_slice(), path.as_slice()),
                }
            },
        }
    }

    /// Reacts to the response to the last `Connect`. A redirect (status
    /// `3xx`) needs a `location` header and moves the fetch there, unless
    /// the limit of redirects has been reached; the cache is left as it
    /// is. Any other response has its body decoded, offered to the cache and
    /// delivered.
    pub fn on_response(&mut self, resp: Response, cache: &mut ResponseCache, now: u64) -> (r:
        Action)
        requires
            is_network(old(self).handler.target@),
        ensures
            ({
                let hs = headers_view(resp.headers@);
                if is_redirect(resp.status@) {
                    forall|k: Seq<u8>| #[trigger] final(cache).entry(k) == old(cache).entry(k)
                } else {
                    true
                }
            }),
            is_redirect(resp.status@) ==> match header_value(
                headers_view(resp.headers@),
                location_word(),
            ) {
                None => r@ == ActionView::Fail(FetchError::ProtocolError),
                Some(loc) => if old(self).redirects >= REDIRECT_LIMIT {
                    r@ == ActionView::Fail(FetchError::TooManyRedirects)
                } else {
                    final(self).redirects == old(self).redirects + 1
                        && final(self).handler.target@ == redirect_target(
                        old(self).handler.target@,
                        loc,
                    ) && final(self).handler.view_source == (old(self).handler.view_source || (
                    !starts_with(loc, seq![47u8]) && has_view_source(loc))) && r@ == action_spec(
                        final(self).handler.target@,
                        cached_for(*final(cache), final(self).handler.target@),
                        now,
                    )
                },
            },
            !is_redirect(resp.status@) ==> match decoded_spec(
                headers_view(resp.headers@),
                resp.body@,
            ) {
                Some(b) if valid_utf8(b) => r@ == ActionView::Deliver(decode_utf8(b)) && forall|
                    k: Seq<u8>,
                | #[trigger]
                    final(cache).entry(k) == if should_cache_spec(
                        headers_view(resp.headers@),
                        resp.status@,
                    ).0 && cache_key_spec(old(self).handler.target@) == Some(k) {
                        Some(
                            EntryView {
                                content: decode_utf8(b),
                                stored_at: now,
                                max_age: should_cache_spec(
                                    headers_view(resp.headers@),
                                    resp.status@,
                                ).1,
                            },
                        )
                    } else {
                        old(cache).entry(k)
                    },
                _ => r@ == ActionView::Fail(FetchError::EncodingError) && forall|k: Seq<u8>|
                    #[trigger] final(cache).entry(k) == old(cache).entry(k),
            },
    {
        if resp.status.len() > 0 && resp.status[0] == 51 {
            let location = match find_header(&resp.headers, location_bytes().as_slice()) {
                Some(l) => l,
                None => {
                    return Action::Fail(FetchError::ProtocolError);
                },
            };
            if self.redirects >= REDIRECT_LIMIT {
                return Action::Fail(FetchError::TooManyRedirects);
            }
            self.redirects = self.redirects + 1;
            if location.len() > 0 && location[0] == 47 {
                proof {
                    assert(starts_with(location@, seq![47u8])) by {
                        assert(location@.subrange(0, 1) =~= seq![47u8]);
                    }
                }
                let target = match &self.handler.target {
                    Target::Http { host, port, .. } => Target::Http {
                        host: host.clone(),
                        port: *port,
                        path: location,
                    },
                    Target::Https { host, port, .. } => Target::Https {
                        host: host.clone(),
                        port: *port,
                        path: location,
                    },
                    other => other.clone(),
                };
                self.handler.target = target;
            } else {
                proof {
                    if starts_with(location@, seq![47u8]) {
                        assert(location@.subrange(0, 1)[0] == location@[0]);
                    }
                }
                self.handler = URLHandler::resolve(location.as_slice(), self.handler.view_source);
            }
            return self.next_action(cache, now);
        }
        let text = match decode_body(&resp.headers, resp.body) {
            Ok(t) => t,
            Err(e) => {
                return Action::Fail(e);
            },
        };
        match self.handler.cache_key() {
            Some(key) => cache.consider_storing(
                &resp.headers,
                resp.status.as_slice(),
                key,
                text.clone(),
                now,
            ),
            None => {},
        }
        Action::Deliver(text)
    }
}

fn text_action_of(data: &Vec<u8>) -> (r: Action)
    ensures
        r@ == text_action(data@),
{
    let copy = data.clone();
    assert(copy@ == data@);
    match text_of(copy) {
        Ok(s) => Action::Deliver(s),
        Err(e) => Action::Fail(e),
    }
}

} // verus!
