//! The response cache: freshness of stored entries and the policy that
//! decides from a response's headers whether, and for how long, to keep it.
use vstd::prelude::*;

use crate::bytes::{
    contains, copy_range, eq_bytes, find_bytes, index_from, index_of, parse_bounded, parse_number,
    split_once, starts_with, starts_with_bytes, trim, trimmed,
};
use crate::http::{cache_control_bytes, cache_control_word, find_header, header_value, headers_view};

verus! {

pub open spec fn no_store_word() -> Seq<u8> {
    seq![110u8, 111, 45, 115, 116, 111, 114, 101]
}

fn no_store_bytes() -> (r: Vec<u8>)
    ensures
        r@ == no_store_word(),
{
    let v: Vec<u8> = vec![110u8, 111, 45, 115, 116, 111, 114, 101];
    proof {
        assert(v@ =~= no_store_word());
    }
    v
}

pub open spec fn max_age_word() -> Seq<u8> {
    seq![109u8, 97, 120, 45, 97, 103, 101]
}

fn max_age_bytes() -> (r: Vec<u8>)
    ensures
        r@ == max_age_word(),
{
    let v: Vec<u8> = vec![109u8, 97, 120, 45, 97, 103, 101];
    proof {
        assert(v@ =~= max_age_word());
    }
    v
}

pub open spec fn max_age_eq_word() -> Seq<u8> {
    seq![109u8, 97, 120, 45, 97, 103, 101, 61]
}

fn max_age_eq_bytes() -> (r: Vec<u8>)
    ensures
        r@ == max_age_eq_word(),
{
    let v: Vec<u8> = vec![109u8, 97, 120, 45, 97, 103, 101, 61];
    proof {
        assert(v@ =~= max_age_eq_word());
    }
    v
}

pub open spec fn public_word() -> Seq<u8> {
    seq![112u8, 117, 98, 108, 105, 99]
}

fn public_bytes() -> (r: Vec<u8>)
    ensures
        r@ == public_word(),
{
    let v: Vec<u8> = vec![112u8, 117, 98, 108, 105, 99];
    proof {
        assert(v@ =~= public_word());
    }
    v
}

pub open spec fn private_word() -> Seq<u8> {
    seq![112u8, 114, 105, 118, 97, 116, 101]
}

fn private_bytes() -> (r: Vec<u8>)
    ensures
        r@ == private_word(),
{
    let v: Vec<u8> = vec![112u8, 114, 105, 118, 97, 116, 101];
    proof {
        assert(v@ =~= private_word());
    }
    v
}

pub open spec fn ok_status_word() -> Seq<u8> {
    seq![50u8, 48, 48]
}

fn ok_status_bytes() -> (r: Vec<u8>)
    ensures
        r@ == ok_status_word(),
{
    let v: Vec<u8> = vec![50u8, 48, 48];
    proof {
        assert(v@ =~= ok_status_word());
    }
    v
}

/// End of the comma-separated piece of `s` that starts at `pos`.
pub open spec fn piece_end(s: Seq<u8>, pos: int) -> int {
    match index_from(s, 44, pos) {
        Some(i) => i,
        None => s.len() as int,
    }
}

/// The text of a directive between its first `=` and the next one.
pub open spec fn directive_value(d: Seq<u8>) -> Seq<u8> {
    match split_once(d, 61) {
        Some((_, r)) => match split_once(r, 61) {
            Some((v, _)) => v,
            None => r,
        },
        None => Seq::empty(),
    }
}

/// The name of a directive: its text up to the first `=`.
pub open spec fn directive_name(d: Seq<u8>) -> Seq<u8> {
    match split_once(d, 61) {
        Some((n, _)) => n,
        None => d,
    }
}

/// The first `max-age=<n>` directive, among the pieces from `pos` on, whose
/// value reads as a 64-bit unsigned integer.
pub open spec fn max_age_from(s: Seq<u8>, pos: int) -> Option<nat>
    decreases s.len() + 1 - pos,
{
    if pos < 0 || pos > s.len() {
        None
    } else {
        let e = piece_end(s, pos);
        let d = trim(s.subrange(pos, e));
        let here = if starts_with(d, max_age_eq_word()) {
            parse_bounded(directive_value(d), 10, 0xffff_ffff_ffff_ffff)
        } else {
            None
        };
        if here is Some {
            here
        } else if e < pos || e >= s.len() {
            None
        } else {
            max_age_from(s, e + 1)
        }
    }
}

pub open spec fn known_directive(name: Seq<u8>) -> bool {
    name.len() == 0 || name == no_store_word() || name == max_age_word() || name == public_word()
        || name == private_word()
}

/// Whether every directive from `pos` on is one of the known ones.
pub open spec fn all_known_from(s: Seq<u8>, pos: int) -> bool
    decreases s.len() + 1 - pos,
{
    if pos < 0 || pos > s.len() {
        true
    } else {
        let e = piece_end(s, pos);
        known_directive(directive_name(trim(s.subrange(pos, e)))) && (e < pos || e >= s.len()
            || all_known_from(s, e + 1))
    }
}

/// Whether a response is cached, and with which max-age, from its status
/// and its `cache-control` header (an empty one where absent).
pub open spec fn should_cache_spec(
    hs: Seq<(Seq<u8>, Seq<u8>)>,
    status: Seq<u8>,
) -> (bool, Option<u64>) {
    let cc = match header_value(hs, cache_control_word()) {
        Some(v) => v,
        None => Seq::empty(),
    };
    if status != ok_status_word() {
        (false, None)
    } else if contains(cc, no_store_word()) {
        (false, None)
    } else if contains(cc, max_age_word()) {
        match max_age_from(cc, 0) {
            Some(v) => (true, Some(v as u64)),
            None => (false, None),
        }
    } else if all_known_from(cc, 0) {
        (true, None)
    } else {
        (false, None)
    }
}

/// An entry stored with `max-age=0` is stale at every moment from the one
/// it was stored at.
pub proof fn lemma_zero_max_age_is_stale(e: EntryView, now: u64)
    requires
        e.max_age == Some(0u64),
        now >= e.stored_at,
    ensures
        !is_fresh(e, now),
{
}

/// An entry stored without a max-age is fresh at every moment.
pub proof fn lemma_no_max_age_is_fresh(e: EntryView, now: u64)
    requires
        e.max_age is None,
    ensures
        is_fresh(e, now),
{
}

/// A response whose `cache-control` header holds `no-store` is never cached.
pub proof fn lemma_no_store_is_not_cached(hs: Seq<(Seq<u8>, Seq<u8>)>, status: Seq<u8>)
    requires
        header_value(hs, cache_control_word()) matches Some(cc) && contains(cc, no_store_word()),
    ensures
        !should_cache_spec(hs, status).0,
{
}

/// A `200` response without a `cache-control` header is cached with no
/// expiry.
pub proof fn lemma_no_cache_control_is_kept(hs: Seq<(Seq<u8>, Seq<u8>)>)
    requires
        header_value(hs, cache_control_word()) is None,
    ensures
        should_cache_spec(hs, ok_status_word()) == (true, None::<u64>),
{
    let e = Seq::<u8>::empty();
    assert(trim(e.subrange(0, 0)) =~= e) by {
        assert(e.subrange(0, 0) =~= e);
    }
    assert(directive_name(e) == e);
}

/// A stored response: its text, when it was stored (seconds since the
/// epoch) and how long it stays fresh (`None`: for ever).
#[derive(Debug, Clone)]
pub struct CacheEntry {
    pub content: String,
    pub stored_at: u64,
    pub max_age: Option<u64>,
}

pub struct EntryView {
    pub content: Seq<char>,
    pub stored_at: u64,
    pub max_age: Option<u64>,
}

impl View for CacheEntry {
    type V = EntryView;

    open spec fn view(&self) -> EntryView {
        EntryView { content: self.content@, stored_at: self.stored_at, max_age: self.max_age }
    }
}

/// An entry is fresh at `now` when it has no max-age, or when it is younger
/// than its max-age.
pub open spec fn is_fresh(e: EntryView, now: u64) -> bool {
    match e.max_age {
        None => true,
        Some(m) => (now as int) - (e.stored_at as int) < m as int,
    }
}

pub open spec fn entries_view(v: Seq<(Vec<u8>, CacheEntry)>) -> Seq<(Seq<u8>, EntryView)> {
    v.map_values(|p: (Vec<u8>, CacheEntry)| (p.0@, p.1@))
}

/// The entry stored last under `key`.
pub open spec fn entry_in(s: Seq<(Seq<u8>, EntryView)>, key: Seq<u8>) -> Option<EntryView>
    decreases s.len(),
{
    if s.len() == 0 {
        None
    } else if s.last().0 == key {
        Some(s.last().1)
    } else {
        entry_in(s.drop_last(), key)
    }
}

proof fn lemma_entry_update(s: Seq<(Seq<u8>, EntryView)>, i: int, e: (Seq<u8>, EntryView))
    requires
        0 <= i < s.len(),
        s[i].0 == e.0,
        forall|j: int| i < j < s.len() ==> s[j].0 != e.0,
    ensures
        forall|k: Seq<u8>|
            #[trigger] entry_in(s.update(i, e), k) == if k == e.0 {
                Some(e.1)
            } else {
                entry_in(s, k)
            },
    decreases s.len(),
{
    let t = s.update(i, e);
    if i == s.len() - 1 {
        assert(t.drop_last() =~= s.drop_last());
        assert forall|k: Seq<u8>|
            #[trigger] entry_in(t, k) == if k == e.0 {
                Some(e.1)
            } else {
                entry_in(s, k)
            } by {
            assert(t.last() == e);
        }
    } else {
        assert(t.drop_last() =~= s.drop_last().update(i, e));
        lemma_entry_update(s.drop_last(), i, e);
        assert forall|k: Seq<u8>|
            #[trigger] entry_in(t, k) == if k == e.0 {
                Some(e.1)
            } else {
                entry_in(s, k)
            } by {
            assert(t.last() == s.last());
            assert(s.last().0 != e.0);
            if k != s.last().0 {
                assert(entry_in(t.drop_last(), k) == entry_in(s.drop_last().update(i, e), k));
            }
        }
    }
}

/// Response texts keyed by `scheme://host:port/path`. Holds at most one
/// entry per key; grows without bound for the life of the value.
pub struct ResponseCache {
    entries: Vec<(Vec<u8>, CacheEntry)>,
}

impl ResponseCache {
    /// The entry stored under `key`, if any.
    pub closed spec fn entry(&self, key: Seq<u8>) -> Option<EntryView> {
        entry_in(entries_view(self.entries@), key)
    }

    /// An empty cache.
    pub fn new() -> (r: ResponseCache)
        ensures
            forall|k: Seq<u8>| (#[trigger] r.entry(k)) is None,
    {
        let r = ResponseCache { entries: Vec::new() };
        assert(entries_view(r.entries@) =~= Seq::empty());
        r
    }

    /// The cached text for `key` where its entry is fresh at `now`.
    pub fn check_cache(&self, key: &[u8], now: u64) -> (r: Option<String>)
        ensures
            r matches Some(c) ==> self.entry(key@) matches Some(e) && is_fresh(e, now) && c@
                == e.content,
            r is None ==> !(self.entry(key@) matches Some(e) && is_fresh(e, now)),
    {
        let mut k: usize = self.entries.len();
        assert(self.entries@.subrange(0, k as int) =~= self.entries@);
        while k > 0
            invariant
                k <= self.entries.len(),
                self.entry(key@) == entry_in(
                    entries_view(self.entries@.subrange(0, k as int)),
                    key@,
                ),
            decreases k,
        {
            let ghost ev = entries_view(self.entries@.subrange(0, k as int));
            assert(ev.drop_last() =~= entries_view(self.entries@.subrange(0, k - 1)));
            assert(ev.last() == (self.entries@[k - 1].0@, self.entries@[k - 1].1@));
            let entry = &self.entries[k - 1].1;
            if eq_bytes(self.entries[k - 1].0.as_slice(), key) {
                let fresh = match entry.max_age {
                    None => true,
                    Some(m) => now < entry.stored_at || now - entry.stored_at < m,
                };
                if fresh {
                    return Some(entry.content.clone());
                } else {
                    return None;
                }
            }
            k -= 1;
        }
        None
    }

    /// Stores `content` under `key`, replacing what was there.
    pub fn store(&mut self, key: Vec<u8>, content: String, now: u64, max_age: Option<u64>)
        ensures
            forall|k: Seq<u8>|
                #[trigger] final(self).entry(k) == if k == key@ {
                    Some(EntryView { content: content@, stored_at: now, max_age })
                } else {
                    old(self).entry(k)
                },
    {
        let entry = CacheEntry { content, stored_at: now, max_age };
        let ghost e = (key@, entry@);
        assert(e.1 == EntryView { content: content@, stored_at: now, max_age });
        let mut k: usize = self.entries.len();
        while k > 0
            invariant
                k <= self.entries.len(),
                self.entries@ == old(self).entries@,
                e == (key@, entry@),
                e.1 == (EntryView { content: content@, stored_at: now, max_age }),
                forall|j: int| k <= j < self.entries.len() ==> self.entries@[j].0@ != key@,
            decreases k,
        {
            if eq_bytes(self.entries[k - 1].0.as_slice(), key.as_slice()) {
                let ghost s = entries_view(self.entries@);
                proof {
                    assert(s[k - 1].0 == self.entries@[k - 1].0@);
                    assert forall|j: int| k - 1 < j < s.len() implies s[j].0 != e.0 by {
                        assert(s[j].0 == self.entries@[j].0@);
                    }
                    lemma_entry_update(s, k - 1, e);
                }
                let ghost kv = key@;
                let pair = (key, entry);
                assert(pair.0@ == kv && pair.1@ == e.1);
                self.entries.set(k - 1, pair);
                assert(entries_view(self.entries@) =~= s.update(k - 1, e));
                assert forall|kk: Seq<u8>| #[trigger]
                    self.entry(kk) == if kk == kv {
                        Some(e.1)
                    } else {
                        old(self).entry(kk)
                    } by {
                    assert(entry_in(s.update(k - 1, e), kk) == if kk == e.0 {
                        Some(e.1)
                    } else {
                        entry_in(s, kk)
                    });
                }
                return;
            }
            k -= 1;
        }
        let ghost s = entries_view(self.entries@);
        self.entries.push((key, entry));
        assert(entries_view(self.entries@).drop_last() =~= s);
    }

    /// Stores the response text under `key` where [`should_cache`] allows it,
    /// with the max-age it gives; otherwise leaves the cache as it is.
    pub fn consider_storing(
        &mut self,
        headers: &Vec<(Vec<u8>, Vec<u8>)>,
        status: &[u8],
        key: Vec<u8>,
        content: String,
        now: u64,
    )
        ensures
            forall|k: Seq<u8>|
                #[trigger] final(self).entry(k) == if should_cache_spec(
                    headers_view(headers@),
                    status@,
                ).0 && k == key@ {
                    Some(
                        EntryView {
                            content: content@,
                            stored_at: now,
                            max_age: should_cache_spec(headers_view(headers@), status@).1,
                        },
                    )
                } else {
                    old(self).entry(k)
                },
    {
        let (keep, max_age) = should_cache(headers, status);
        if keep {
            self.store(key, content, now, max_age);
        }
    }
}

/// The first `max-age=<n>` directive of `cc` whose value parses.
fn first_max_age(cc: &[u8]) -> (r: Option<u64>)
    ensures
        r matches Some(v) ==> max_age_from(cc@, 0) == Some(v as nat),
        r is None ==> max_age_from(cc@, 0) is None,
{
    let prefix = max_age_eq_bytes();
    let mut pos: usize = 0;
    loop
        invariant
            pos <= cc.len(),
            prefix@ == max_age_eq_word(),
            max_age_from(cc@, 0) == max_age_from(cc@, pos as int),
        decreases cc.len() - pos,
    {
        let e = match index_of(cc, 44, pos) {
            Some(i) => i,
            None => cc.len(),
        };
        let piece = copy_range(cc, pos, e);
        let d = trimmed(piece.as_slice());
        if starts_with_bytes(d.as_slice(), prefix.as_slice()) {
            let value = directive_value_of(d.as_slice());
            match parse_number(value.as_slice(), 10, 0xffff_ffff_ffff_ffff) {
                Some(v) => {
                    assert(max_age_from(cc@, pos as int) == Some(v as nat));
                    return Some(v);
                },
                None => {},
            }
        }
        assert(max_age_from(cc@, pos as int) == if e >= cc.len() {
            None
        } else {
            max_age_from(cc@, e + 1)
        });
        if e >= cc.len() {
            return None;
        }
        pos = e + 1;
    }
}

fn directive_value_of(d: &[u8]) -> (r: Vec<u8>)
    ensures
        r@ == directive_value(d@),
{
    match index_of(d, 61, 0) {
        Some(i) => {
            let rest = copy_range(d, i + 1, d.len());
            match index_of(rest.as_slice(), 61, 0) {
                Some(j) => copy_range(rest.as_slice(), 0, j),
                None => rest,
            }
        },
        None => {
            let r: Vec<u8> = Vec::new();
            assert(r@ =~= Seq::<u8>::empty());
            r
        },
    }
}

fn directive_name_of(d: &[u8]) -> (r: Vec<u8>)
    ensures
        r@ == directive_name(d@),
{
    match index_of(d, 61, 0) {
        Some(i) => copy_range(d, 0, i),
        None => {
            assert(d@.subrange(0, d@.len() as int) =~= d@);
            copy_range(d, 0, d.len())
        },
    }
}

fn is_known_directive(name: &[u8]) -> (r: bool)
    ensures
        r == known_directive(name@),
{
    name.len() == 0 || eq_bytes(name, no_store_bytes().as_slice()) || eq_bytes(
        name,
        max_age_bytes().as_slice(),
    ) || eq_bytes(name, public_bytes().as_slice()) || eq_bytes(name, private_bytes().as_slice())
}

/// Whether every directive of `cc` is a known one.
fn all_known(cc: &[u8]) -> (r: bool)
    ensures
        r == all_known_from(cc@, 0),
{
    let mut pos: usize = 0;
    loop
        invariant
            pos <= cc.len(),
            all_known_from(cc@, 0) == all_known_from(cc@, pos as int),
        decreases cc.len() - pos,
    {
        let e = match index_of(cc, 44, pos) {
            Some(i) => i,
            None => cc.len(),
        };
        let piece = copy_range(cc, pos, e);
        let d = trimmed(piece.as_slice());
        let name = directive_name_of(d.as_slice());
        if !is_known_directive(name.as_slice()) {
            return false;
        }
        if e >= cc.len() {
            return true;
        }
        pos = e + 1;
    }
}

/// Decides from a response's status and headers whether to cache it:
/// only status `200`; never with `no-store`; with `max-age`, for the first
/// such directive whose value parses (and not at all if none does);
/// otherwise for ever, unless an unknown directive appears.
pub fn should_cache(headers: &Vec<(Vec<u8>, Vec<u8>)>, status: &[u8]) -> (r: (bool, Option<u64>))
    ensures
        r == should_cache_spec(headers_view(headers@), status@),
{
    if !eq_bytes(status, ok_status_bytes().as_slice()) {
        return (false, None);
    }
    let cc = match find_header(headers, cache_control_bytes().as_slice()) {
        Some(v) => v,
        None => {
            let e: Vec<u8> = Vec::new();
            assert(e@ =~= Seq::<u8>::empty());
            e
        },
    };
    if find_bytes(cc.as_slice(), no_store_bytes().as_slice(), 0).is_some() {
        return (false, None);
    }
    if find_bytes(cc.as_slice(), max_age_bytes().as_slice(), 0).is_some() {
        return match first_max_age(cc.as_slice()) {
            Some(v) => (true, Some(v)),
            None => (false, None),
        };
    }
    if all_known(cc.as_slice()) {
        (true, None)
    } else {
        (false, None)
    }
}

} // verus!
