//! URL descriptors and the URL parser.
use vstd::prelude::*;

use crate::bytes::{
    append_bytes, copy_range, decimal, decimal_of, eq_bytes, find_bytes, find_from, index_of,
    lemma_decimal_digits, lemma_find_from_found,
    lemma_index_from_found, occurs_at, parse_bounded, parse_number, parse_unsigned, split_once,
};
use crate::error::FetchError;

verus! {

pub open spec fn view_source_word() -> Seq<u8> {
    seq![118u8, 105, 101, 119, 45, 115, 111, 117, 114, 99, 101]
}

fn view_source_bytes() -> (r: Vec<u8>)
    ensures
        r@ == view_source_word(),
{
    let v: Vec<u8> = vec![118u8, 105, 101, 119, 45, 115, 111, 117, 114, 99, 101];
    proof {
        assert(v@ =~= view_source_word());
    }
    v
}

pub open spec fn about_word() -> Seq<u8> {
    seq![97u8, 98, 111, 117, 116]
}

fn about_bytes() -> (r: Vec<u8>)
    ensures
        r@ == about_word(),
{
    let v: Vec<u8> = vec![97u8, 98, 111, 117, 116];
    proof {
        assert(v@ =~= about_word());
    }
    v
}

pub open spec fn data_word() -> Seq<u8> {
    seq![100u8, 97, 116, 97]
}

fn data_bytes() -> (r: Vec<u8>)
    ensures
        r@ == data_word(),
{
    let v: Vec<u8> = vec![100u8, 97, 116, 97];
    proof {
        assert(v@ =~= data_word());
    }
    v
}

pub open spec fn http_word() -> Seq<u8> {
    seq![104u8, 116, 116, 112]
}

fn http_bytes() -> (r: Vec<u8>)
    ensures
        r@ == http_word(),
{
    let v: Vec<u8> = vec![104u8, 116, 116, 112];
    proof {
        assert(v@ =~= http_word());
    }
    v
}

pub open spec fn https_word() -> Seq<u8> {
    seq![104u8, 116, 116, 112, 115]
}

fn https_bytes() -> (r: Vec<u8>)
    ensures
        r@ == https_word(),
{
    let v: Vec<u8> = vec![104u8, 116, 116, 112, 115];
    proof {
        assert(v@ =~= https_word());
    }
    v
}

pub open spec fn file_word() -> Seq<u8> {
    seq![102u8, 105, 108, 101]
}

fn file_bytes() -> (r: Vec<u8>)
    ensures
        r@ == file_word(),
{
    let v: Vec<u8> = vec![102u8, 105, 108, 101];
    proof {
        assert(v@ =~= file_word());
    }
    v
}

pub open spec fn text_plain_word() -> Seq<u8> {
    seq![116u8, 101, 120, 116, 47, 112, 108, 97, 105, 110]
}

fn text_plain_bytes() -> (r: Vec<u8>)
    ensures
        r@ == text_plain_word(),
{
    let v: Vec<u8> = vec![116u8, 101, 120, 116, 47, 112, 108, 97, 105, 110];
    proof {
        assert(v@ =~= text_plain_word());
    }
    v
}

pub open spec fn blank_page_word() -> Seq<u8> {
    seq![66u8, 108, 97, 110, 107, 32, 80, 97, 103, 101]
}

fn blank_page_bytes() -> (r: Vec<u8>)
    ensures
        r@ == blank_page_word(),
{
    let v: Vec<u8> = vec![66u8, 108, 97, 110, 107, 32, 80, 97, 103, 101];
    proof {
        assert(v@ =~= blank_page_word());
    }
    v
}

/// What a URL points at, one variant per scheme.
#[derive(Debug, Clone)]
pub enum Target {
    Http { host: Vec<u8>, port: u16, path: Vec<u8> },
    Https { host: Vec<u8>, port: u16, path: Vec<u8> },
    /// A path on the local file system.
    File { path: Vec<u8> },
    /// Inline content of a `data:` URL.
    Data { media_type: Vec<u8>, data: Vec<u8> },
    /// The placeholder page.
    About { data: Vec<u8> },
}

/// The mathematical value of a [`Target`].
pub enum TargetView {
    Http { host: Seq<u8>, port: u16, path: Seq<u8> },
    Https { host: Seq<u8>, port: u16, path: Seq<u8> },
    File { path: Seq<u8> },
    Data { media_type: Seq<u8>, data: Seq<u8> },
    About { data: Seq<u8> },
}

impl View for Target {
    type V = TargetView;

    open spec fn view(&self) -> TargetView {
        match self {
            Target::Http { host, port, path } => TargetView::Http {
                host: host@,
                port: *port,
                path: path@,
            },
            Target::Https { host, port, path } => TargetView::Https {
                host: host@,
                port: *port,
                path: path@,
            },
            Target::File { path } => TargetView::File { path: path@ },
            Target::Data { media_type, data } => TargetView::Data {
                media_type: media_type@,
                data: data@,
            },
            Target::About { data } => TargetView::About { data: data@ },
        }
    }
}

/// Host, port and path of an `http` or `https` URL after its `//`; the port
/// defaults to `default_port`.
pub open spec fn network_spec(u: Seq<u8>, default_port: u16) -> Option<(Seq<u8>, u16, Seq<u8>)> {
    let (host_part, after) = match split_once(u, 47) {
        Some(p) => p,
        None => (u, Seq::empty()),
    };
    let path = seq![47u8] + after;
    match split_once(host_part, 58) {
        None => Some((host_part, default_port, path)),
        Some((host, port)) => match parse_bounded(port, 10, 65535) {
            Some(v) => Some((host, v as u16, path)),
            None => None,
        },
    }
}

/// What follows the first `//` of `rest`.
pub open spec fn after_slashes(rest: Seq<u8>) -> Option<Seq<u8>> {
    match find_from(rest, seq![47u8, 47], 0) {
        Some(i) => Some(rest.subrange(i + 2, rest.len() as int)),
        None => None,
    }
}

/// The target of a URL whose scheme is `scheme` and whose text after the
/// scheme's `:` is `rest`.
pub open spec fn target_spec(scheme: Seq<u8>, rest: Seq<u8>) -> Option<TargetView> {
    if scheme == about_word() {
        Some(TargetView::About { data: blank_page_word() })
    } else if scheme == data_word() {
        match split_once(rest, 44) {
            Some((m, d)) => Some(TargetView::Data { media_type: m, data: d }),
            None => Some(TargetView::Data { media_type: text_plain_word(), data: rest }),
        }
    } else {
        match after_slashes(rest) {
            None => None,
            Some(u) => if scheme == file_word() {
                Some(TargetView::File { path: u })
            } else if scheme == http_word() {
                match network_spec(u, 80) {
                    Some((h, p, path)) => Some(TargetView::Http { host: h, port: p, path }),
                    None => None,
                }
            } else if scheme == https_word() {
                match network_spec(u, 443) {
                    Some((h, p, path)) => Some(TargetView::Https { host: h, port: p, path }),
                    None => None,
                }
            } else {
                None
            },
        }
    }
}

/// Whether the URL carries the `view-source:` modifier.
pub open spec fn has_view_source(url: Seq<u8>) -> bool {
    match split_once(url, 58) {
        Some((scheme, _)) => scheme == view_source_word(),
        None => false,
    }
}

/// The target a URL names, or `None` where it is malformed.
pub open spec fn url_spec(url: Seq<u8>) -> Option<TargetView> {
    match split_once(url, 58) {
        None => None,
        Some((scheme, rest)) => if scheme == view_source_word() {
            match split_once(rest, 58) {
                None => None,
                Some((s, r)) => target_spec(s, r),
            }
        } else {
            target_spec(scheme, rest)
        },
    }
}

/// The target that loading a URL shows: its own, or the placeholder page
/// where the URL is malformed.
pub open spec fn resolved_spec(url: Seq<u8>) -> TargetView {
    match url_spec(url) {
        Some(t) => t,
        None => TargetView::About { data: blank_page_word() },
    }
}

/// The cache key `scheme://host:port/path` of a network target.
pub open spec fn cache_key_spec(t: TargetView) -> Option<Seq<u8>> {
    match t {
        TargetView::Http { host, port, path } => Some(http_word() + seq![58u8, 47, 47] + host
            + seq![58u8] + decimal(port as nat) + path),
        TargetView::Https { host, port, path } => Some(https_word() + seq![58u8, 47, 47] + host
            + seq![58u8] + decimal(port as nat) + path),
        _ => None,
    }
}

/// The text after `scheme:` of a network URL: `//host[:port]/path`.
pub open spec fn authority_text(host: Seq<u8>, port: Option<u16>, rest: Seq<u8>) -> Seq<u8> {
    seq![47u8, 47] + host + match port {
        Some(p) => seq![58u8] + decimal(p as nat),
        None => Seq::empty(),
    } + seq![47u8] + rest
}

proof fn lemma_split_first(s: Seq<u8>, b: u8, k: int)
    requires
        0 <= k < s.len(),
        s[k] == b,
        forall|j: int| 0 <= j < k ==> s[j] != b,
    ensures
        split_once(s, b) == Some((s.subrange(0, k), s.subrange(k + 1, s.len() as int))),
{
    lemma_index_from_found(s, b, 0, k);
}

proof fn lemma_network_part(host: Seq<u8>, port: Option<u16>, rest: Seq<u8>, default_port: u16)
    requires
        forall|j: int| 0 <= j < host.len() ==> host[j] != 58 && host[j] != 47,
    ensures
        network_spec(
            authority_text(host, port, rest).subrange(2, authority_text(host, port, rest).len() as int),
            default_port,
        ) == Some(
            (
                host,
                match port {
                    Some(p) => p,
                    None => default_port,
                },
                seq![47u8] + rest,
            ),
        ),
{
    let a = authority_text(host, port, rest);
    let u = a.subrange(2, a.len() as int);
    let pd = match port {
        Some(p) => seq![58u8] + decimal(p as nat),
        None => Seq::empty(),
    };
    let hp = host + pd;
    assert(u =~= hp + seq![47u8] + rest);
    match port {
        Some(p) => {
            lemma_decimal_digits(p as nat);
        },
        None => {},
    }
    assert forall|j: int| 0 <= j < hp.len() implies hp[j] != 47 by {
        if j >= host.len() {
            match port {
                Some(p) => {
                    if j > host.len() {
                        assert(hp[j] == decimal(p as nat)[j - host.len() - 1]);
                    }
                },
                None => {},
            }
        }
    }
    lemma_split_first(u, 47, hp.len() as int);
    assert(u.subrange(0, hp.len() as int) =~= hp);
    assert(u.subrange(hp.len() as int + 1, u.len() as int) =~= rest);
    match port {
        Some(p) => {
            lemma_split_first(hp, 58, host.len() as int);
            assert(hp.subrange(0, host.len() as int) =~= host);
            let d = decimal(p as nat);
            assert(hp.subrange(host.len() as int + 1, hp.len() as int) =~= d);
            assert(d[0] != 43u8);
            assert(parse_unsigned(d, 10) == Some(p as nat));
        },
        None => {
            assert(hp =~= host);
            crate::bytes::lemma_index_from_absent(hp, 58, 0);
        },
    }
}

proof fn lemma_scheme_words()
    ensures
        http_word() != about_word(),
        http_word() != data_word(),
        http_word() != file_word(),
        http_word() != view_source_word(),
        https_word() != about_word(),
        https_word() != data_word(),
        https_word() != file_word(),
        https_word() != http_word(),
        https_word() != view_source_word(),
{
    assert(http_word()[0] != data_word()[0]);
    assert(http_word()[0] != file_word()[0]);
    assert(https_word()[0] != about_word()[0]);
    assert(http_word().len() != about_word().len());
    assert(http_word().len() != view_source_word().len());
    assert(https_word().len() != data_word().len());
    assert(https_word().len() != file_word().len());
    assert(https_word().len() != http_word().len());
    assert(https_word().len() != view_source_word().len());
}

proof fn lemma_network_target(secure: bool, host: Seq<u8>, port: Option<u16>, rest: Seq<u8>)
    requires
        forall|j: int| 0 <= j < host.len() ==> host[j] != 58 && host[j] != 47,
    ensures
        ({
            let scheme = if secure { https_word() } else { http_word() };
            let p = match port {
                Some(p) => p,
                None => if secure { 443u16 } else { 80u16 },
            };
            url_spec(scheme + seq![58u8] + authority_text(host, port, rest)) == Some(
                if secure {
                    TargetView::Https { host, port: p, path: seq![47u8] + rest }
                } else {
                    TargetView::Http { host, port: p, path: seq![47u8] + rest }
                },
            )
        }),
{
    let scheme = if secure { https_word() } else { http_word() };
    let a = authority_text(host, port, rest);
    let url = scheme + seq![58u8] + a;
    let dp: u16 = if secure { 443 } else { 80 };
    lemma_scheme_words();
    lemma_split_first(url, 58, scheme.len() as int);
    assert(url.subrange(0, scheme.len() as int) =~= scheme);
    assert(url.subrange(scheme.len() as int + 1, url.len() as int) =~= a);
    assert(occurs_at(a, seq![47u8, 47], 0)) by {
        assert(a.subrange(0, 2) =~= seq![47u8, 47]);
    }
    lemma_find_from_found(a, seq![47u8, 47], 0, 0);
    assert(after_slashes(a) == Some(a.subrange(2, a.len() as int)));
    lemma_network_part(host, port, rest, dp);
}

/// Parsing `http://host[:port]/path` or `https://host[:port]/path`, for a
/// host without `:` and `/`, gives back the host, the port (80 or 443 where
/// none is written) and the path; and the cache key spells the URL with
/// the port written out, which is the URL itself where it had one.
pub proof fn lemma_network_url_round_trip(
    secure: bool,
    host: Seq<u8>,
    port: Option<u16>,
    rest: Seq<u8>,
)
    requires
        forall|j: int| 0 <= j < host.len() ==> host[j] != 58 && host[j] != 47,
    ensures
        ({
            let scheme = if secure { https_word() } else { http_word() };
            let url = scheme + seq![58u8] + authority_text(host, port, rest);
            let p = match port {
                Some(p) => p,
                None => if secure { 443u16 } else { 80u16 },
            };
            let expected = if secure {
                TargetView::Https { host, port: p, path: seq![47u8] + rest }
            } else {
                TargetView::Http { host, port: p, path: seq![47u8] + rest }
            };
            &&& url_spec(url) == Some(expected)
            &&& cache_key_spec(expected) == Some(
                scheme + seq![58u8] + authority_text(host, Some(p), rest),
            )
            &&& (port is Some ==> cache_key_spec(expected) == Some(url))
        }),
{
    lemma_network_target(secure, host, port, rest);
    let p = match port {
        Some(p) => p,
        None => if secure { 443u16 } else { 80u16 },
    };
    lemma_key_spelling(if secure { https_word() } else { http_word() }, host, p, rest);
}

proof fn lemma_key_spelling(scheme: Seq<u8>, host: Seq<u8>, p: u16, rest: Seq<u8>)
    ensures
        scheme + seq![58u8] + authority_text(host, Some(p), rest) == scheme + seq![58u8, 47, 47]
            + host + seq![58u8] + decimal(p as nat) + (seq![47u8] + rest),
{
    assert(scheme + seq![58u8] + authority_text(host, Some(p), rest) =~= scheme + seq![
        58u8,
        47,
        47,
    ] + host + seq![58u8] + decimal(p as nat) + (seq![47u8] + rest));
}

/// A URL behind the `view-source:` modifier names the same target as the
/// URL alone, and carries the modifier.
pub proof fn lemma_view_source_same_target(url: Seq<u8>)
    requires
        !has_view_source(url),
    ensures
        url_spec(view_source_word() + seq![58u8] + url) == url_spec(url),
        has_view_source(view_source_word() + seq![58u8] + url),
{
    let w = view_source_word() + seq![58u8] + url;
    lemma_split_first(w, 58, 11);
    assert(w.subrange(0, 11) =~= view_source_word());
    assert(w.subrange(12, w.len() as int) =~= url);
}

/// Splits `s` around its first `b`.
fn split_at_byte(s: &[u8], b: u8) -> (r: Option<(Vec<u8>, Vec<u8>)>)
    ensures
        r matches Some((x, y)) ==> split_once(s@, b) == Some((x@, y@)),
        r is None ==> split_once(s@, b) is None,
{
    match index_of(s, b, 0) {
        Some(i) => Some((copy_range(s, 0, i), copy_range(s, i + 1, s.len()))),
        None => None,
    }
}

fn parse_network(u: &[u8], default_port: u16) -> (r: Option<(Vec<u8>, u16, Vec<u8>)>)
    ensures
        r matches Some((h, p, path)) ==> network_spec(u@, default_port) == Some((h@, p, path@)),
        r is None ==> network_spec(u@, default_port) is None,
{
    let (host_part, after) = match split_at_byte(u, 47) {
        Some(p) => p,
        None => {
            let e: Vec<u8> = Vec::new();
            proof {
                assert(e@ =~= Seq::<u8>::empty());
            }
            (copy_range(u, 0, u.len()), e)
        },
    };
    assert(u@.subrange(0, u@.len() as int) =~= u@);
    let mut path: Vec<u8> = vec![47u8];
    append_bytes(&mut path, after.as_slice());
    assert(path@ =~= seq![47u8] + after@);
    match split_at_byte(host_part.as_slice(), 58) {
        None => Some((host_part, default_port, path)),
        Some((host, port)) => match parse_number(port.as_slice(), 10, 65535) {
            Some(v) => Some((host, v as u16, path)),
            None => None,
        },
    }
}

/// The target of a URL with scheme `scheme` and text `rest` after its `:`.
fn parse_target(scheme: &[u8], rest: &[u8]) -> (r: Option<Target>)
    ensures
        r matches Some(t) ==> target_spec(scheme@, rest@) == Some(t@),
        r is None ==> target_spec(scheme@, rest@) is None,
{
    if eq_bytes(scheme, about_bytes().as_slice()) {
        return Some(Target::About { data: blank_page_bytes() });
    }
    if eq_bytes(scheme, data_bytes().as_slice()) {
        return match split_at_byte(rest, 44) {
            Some((m, d)) => Some(Target::Data { media_type: m, data: d }),
            None => {
                let d = copy_range(rest, 0, rest.len());
                assert(rest@.subrange(0, rest@.len() as int) =~= rest@);
                Some(Target::Data { media_type: text_plain_bytes(), data: d })
            },
        };
    }
    let slashes: [u8; 2] = [47u8, 47];
    assert(slashes@ =~= seq![47u8, 47]);
    let u = match find_bytes(rest, slashes.as_slice(), 0) {
        Some(i) => copy_range(rest, i + 2, rest.len()),
        None => {
            return None;
        },
    };
    if eq_bytes(scheme, file_bytes().as_slice()) {
        Some(Target::File { path: u })
    } else if eq_bytes(scheme, http_bytes().as_slice()) {
        match parse_network(u.as_slice(), 80) {
            Some((host, port, path)) => Some(Target::Http { host, port, path }),
            None => None,
        }
    } else if eq_bytes(scheme, https_bytes().as_slice()) {
        match parse_network(u.as_slice(), 443) {
            Some((host, port, path)) => Some(Target::Https { host, port, path }),
            None => None,
        }
    } else {
        None
    }
}

/// A URL resolved for fetching: its target and whether the raw source is
/// wanted rather than the rendered text.
#[derive(Debug, Clone)]
pub struct URLHandler {
    pub view_source: bool,
    pub target: Target,
}

impl Default for URLHandler {
    /// The placeholder page with empty content.
    fn default() -> (r: URLHandler)
        ensures
            !r.view_source,
            r.target@ == (TargetView::About { data: Seq::empty() }),
    {
        let data: Vec<u8> = Vec::new();
        proof {
            assert(data@ =~= Seq::<u8>::empty());
        }
        URLHandler { view_source: false, target: Target::About { data } }
    }
}

impl URLHandler {
    /// Parses a URL. The `view_source` flag of the result is set exactly when
    /// the URL carries the `view-source:` modifier.
    pub fn parse_url(url: &[u8]) -> (r: Result<URLHandler, FetchError>)
        ensures
            r matches Ok(h) ==> url_spec(url@) == Some(h.target@) && h.view_source
                == has_view_source(url@),
            r matches Err(e) ==> url_spec(url@) is None && e == FetchError::MalformedUrl,
    {
        let (scheme, rest) = match split_at_byte(url, 58) {
            Some(p) => p,
            None => {
                return Err(FetchError::MalformedUrl);
            },
        };
        let view_source = eq_bytes(scheme.as_slice(), view_source_bytes().as_slice());
        let target = if view_source {
            match split_at_byte(rest.as_slice(), 58) {
                Some((s, r)) => parse_target(s.as_slice(), r.as_slice()),
                None => None,
            }
        } else {
            parse_target(scheme.as_slice(), rest.as_slice())
        };
        match target {
            Some(target) => Ok(URLHandler { view_source, target }),
            None => Err(FetchError::MalformedUrl),
        }
    }

    /// Resolves a URL given as bytes. A malformed URL resolves to the
    /// placeholder page; the source is shown where asked for or where the
    /// URL carries the `view-source:` modifier.
    pub fn resolve(url: &[u8], view_source: bool) -> (r: URLHandler)
        ensures
            r.target@ == resolved_spec(url@),
            r.view_source == (view_source || has_view_source(url@)),
    {
        let marked = match split_at_byte(url, 58) {
            Some((scheme, _)) => eq_bytes(scheme.as_slice(), view_source_bytes().as_slice()),
            None => false,
        };
        match URLHandler::parse_url(url) {
            Ok(h) => URLHandler { view_source: view_source || marked, target: h.target },
            Err(_) => URLHandler {
                view_source: view_source || marked,
                target: Target::About { data: blank_page_bytes() },
            },
        }
    }

    /// Points this handler at `url`, as [`URLHandler::resolve`] does.
    pub fn init(&mut self, url: String, view_source: bool)
        ensures
            final(self).target@ == resolved_spec(vstd::utf8::encode_utf8(url@)),
            final(self).view_source == (view_source || has_view_source(vstd::utf8::encode_utf8(url@))),
    {
        let b = url.as_str().as_bytes();
        *self = URLHandler::resolve(b, view_source);
    }

    /// The key `scheme://host:port/path` under which a network target's
    /// response is cached; `None` for other targets.
    pub fn cache_key(&self) -> (r: Option<Vec<u8>>)
        ensures
            r matches Some(k) ==> cache_key_spec(self.target@) == Some(k@),
            r is None ==> cache_key_spec(self.target@) is None,
    {
        let (mut key, host, port, path) = match &self.target {
            Target::Http { host, port, path } => (http_bytes(), host, *port, path),
            Target::Https { host, port, path } => (https_bytes(), host, *port, path),
            _ => {
                return None;
            },
        };
        let sep: [u8; 3] = [58u8, 47, 47];
        assert(sep@ =~= seq![58u8, 47, 47]);
        append_bytes(&mut key, sep.as_slice());
        append_bytes(&mut key, host.as_slice());
        key.push(58u8);
        let digits = decimal_of(port);
        append_bytes(&mut key, digits.as_slice());
        append_bytes(&mut key, path.as_slice());
        proof {
            let w = match self.target@ {
                TargetView::Http { .. } => http_word(),
                _ => https_word(),
            };
            assert(key@ =~= w + seq![58u8, 47, 47] + host@ + seq![58u8] + decimal(port as nat)
                + path@);
        }
        Some(key)
    }
}

} // verus!
