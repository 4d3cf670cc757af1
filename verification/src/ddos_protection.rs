//! Per-source flood protection: request counters over a sliding minute,
//! live-connection counts, allow and deny lists, and a case-insensitive
//! match against suspicious client patterns. The per-address table is the
//! `dashmap` concurrent map, held behind a trusted boundary; each entry is
//! the plain triple (request count, connection count, last request time).

use vstd::prelude::*;
use vstd::string::StringSliceAdditionalSpecFns;
use crate::config::DdosProtectionConfig;
use crate::scan;
use crate::utils;
use crate::utils::IpAddress;

verus! {

#[verifier::external_type_specification]
#[verifier::external_body]
#[verifier::reject_recursive_types(K)]
#[verifier::reject_recursive_types(V)]
#[verifier::reject_recursive_types(S)]
pub struct ExDashMap<K, V, S>(dashmap::DashMap<K, V, S>);

/// The per-address table: a concurrent map from address key to the triple
/// (request count, connection count, last request time).
pub type ActivityMap = dashmap::DashMap<
    u128,
    (u32, u32, u64),
    std::collections::hash_map::RandomState,
>;

/// What the per-address table holds: for each address key, its request
/// count, connection count, and the time of its last counted request.
pub uninterp spec fn activity_contents(m: ActivityMap) -> Map<u128, (u32, u32, u64)>;

/// Relies on `dashmap::DashMap::new`: a fresh map is empty.
#[verifier::external_body]
fn activity_map_new() -> (r: ActivityMap)
    ensures
        (activity_contents(r) == Map::<u128, (u32, u32, u64)>::empty()),
{
    dashmap::DashMap::new()
}

/// Relies on `dashmap::DashMap::get`: the value stored under a key.
#[verifier::external_body]
fn activity_map_get(m: &ActivityMap, k: u128) -> (r: Option<(u32, u32, u64)>)
    ensures
        r == (if activity_contents(*m).contains_key(k) {
            Some(activity_contents(*m)[k])
        } else {
            None::<(u32, u32, u64)>
        }),
{
    m.get(&k).map(|e| *e.value())
}

/// Relies on `dashmap::DashMap::insert`: stores a value under a key,
/// replacing any previous one.
#[verifier::external_body]
fn activity_map_insert(m: &mut ActivityMap, k: u128, v: (u32, u32, u64))
    ensures
        activity_contents(*final(m)) == activity_contents(*old(m)).insert(k, v),
{
    m.insert(k, v);
}

/// Relies on `dashmap::DashMap::iter` and `Ref::key`: every stored key,
/// each exactly once, in no promised order.
#[verifier::external_body]
fn activity_map_keys(m: &ActivityMap) -> (r: Vec<u128>)
    ensures
        r@.no_duplicates(),
        forall|k: u128| r@.contains(k) <==> activity_contents(*m).dom().contains(k),
{
    m.iter().map(|e| *e.key()).collect()
}

/// The lower-cased form of a text, as `str::to_lowercase` computes it.
pub uninterp spec fn lower_of(s: Seq<char>) -> Seq<char>;

/// Relies on `str::to_lowercase`: the result depends on the characters
/// alone.
#[verifier::external_body]
fn lowercase(s: &str) -> (r: String)
    ensures
        r@ == lower_of(s@),
{
    s.to_lowercase()
}

/// `n` occurs in `h` starting at position `i`.
pub open spec fn has_sub_at(h: Seq<u8>, n: Seq<u8>, i: int) -> bool {
    0 <= i <= h.len() - n.len() && h.subrange(i, i + n.len()) == n
}

/// `n` occurs somewhere in `h`.
pub open spec fn spec_contains_sub(h: Seq<u8>, n: Seq<u8>) -> bool {
    exists|i: int| has_sub_at(h, n, i)
}

/// Whether one byte text occurs inside another.
pub fn contains_sub(h: &[u8], n: &[u8]) -> (r: bool)
    ensures
        r == spec_contains_sub(h@, n@),
{
    if n.len() > h.len() {
        proof {
            assert(forall|i: int| !has_sub_at(h@, n@, i));
        }
        return false;
    }
    if n.len() == 0 {
        proof {
            assert(h@.subrange(0, 0) =~= n@);
            assert(has_sub_at(h@, n@, 0));
        }
        return true;
    }
    let mut i: usize = 0;
    while i <= h.len() - n.len()
        invariant
            1 <= n@.len() <= h@.len(),
            i <= h@.len() - n@.len() + 1,
            forall|j: int| 0 <= j < i ==> !has_sub_at(h@, n@, j),
        decreases h@.len() - n@.len() + 1 - i,
    {
        let piece = vstd::slice::slice_subrange(h, i, i + n.len());
        if scan::bytes_eq(piece, n) {
            proof {
                assert(has_sub_at(h@, n@, i as int));
            }
            return true;
        }
        i += 1;
    }
    proof {
        assert forall|j: int| !has_sub_at(h@, n@, j) by {
            if 0 <= j <= h@.len() - n@.len() {
                assert(j < i);
            }
        }
    }
    false
}

#[derive(Debug, Clone)]
pub struct DdosConfig {
    pub reset_interval_seconds: u64,
    pub max_requests_per_minute: Option<u32>,
    pub max_connections_per_ip: Option<u32>,
    pub suspicious_patterns: Vec<String>,
    pub whitelist: Vec<IpAddress>,
    pub blacklist: Vec<IpAddress>,
}

impl Default for DdosConfig {
    /// No limits configured, counters reset every minute.
    fn default() -> (r: DdosConfig)
        ensures
            r.reset_interval_seconds == 60,
            r.max_requests_per_minute is None,
            r.max_connections_per_ip is None,
            r.suspicious_patterns@.len() == 0,
            r.whitelist@.len() == 0,
            r.blacklist@.len() == 0,
    {
        DdosConfig {
            reset_interval_seconds: 60,
            max_requests_per_minute: None,
            max_connections_per_ip: None,
            suspicious_patterns: Vec::new(),
            whitelist: Vec::new(),
            blacklist: Vec::new(),
        }
    }
}

/// The addresses a list of address texts defines; texts that do not read as
/// one whole address are skipped.
pub open spec fn spec_parse_ips(texts: Seq<Seq<char>>) -> Seq<IpAddress>
    decreases texts.len(),
{
    if texts.len() == 0 {
        Seq::empty()
    } else {
        spec_parse_ips(texts.drop_last()) + match utils::parsed_network(texts.last()) {
            Some(t) => if t.0 && t.3 == 32 {
                seq![IpAddress::V4(t.1)]
            } else if !t.0 && t.3 == 128 {
                seq![IpAddress::V6(t.2)]
            } else {
                Seq::empty()
            },
            None => Seq::empty(),
        }
    }
}

/// Parse a list of address texts, skipping any that do not read as one
/// whole address.
pub fn parse_ip_list(texts: &Vec<String>) -> (r: Vec<IpAddress>)
    ensures
        r@ == spec_parse_ips(crate::config::strs_view(texts@)),
{
    let ghost views = crate::config::strs_view(texts@);
    let mut r: Vec<IpAddress> = Vec::new();
    let mut i: usize = 0;
    proof {
        assert(views.take(0) =~= Seq::<Seq<char>>::empty());
        assert(r@ =~= spec_parse_ips(views.take(0)));
    }
    while i < texts.len()
        invariant
            i <= texts@.len(),
            views == crate::config::strs_view(texts@),
            r@ == spec_parse_ips(views.take(i as int)),
        decreases texts@.len() - i,
    {
        proof {
            assert(views.take(i + 1).drop_last() =~= views.take(i as int));
            assert(views.take(i + 1).last() == texts@[i as int]@);
        }
        match utils::parse_ip_or_cidr(texts[i].as_str()) {
            Ok(c) => {
                if c.v4 && c.prefix == 32 {
                    r.push(IpAddress::V4(c.addr4));
                } else if !c.v4 && c.prefix == 128 {
                    r.push(IpAddress::V6(c.addr6));
                }
            },
            Err(_) => {},
        }
        i += 1;
    }
    proof {
        assert(views.take(i as int) =~= views);
    }
    r
}

impl DdosConfig {
    /// Build the runtime settings from the parsed configuration section,
    /// reading the allow and deny lists as addresses.
    pub fn from_config(c: &DdosProtectionConfig) -> (r: DdosConfig)
        ensures
            r.reset_interval_seconds == c.reset_interval_seconds,
            r.max_requests_per_minute == c.max_requests_per_minute,
            r.max_connections_per_ip == c.max_connections_per_ip,
            crate::config::strs_view(r.suspicious_patterns@) == crate::config::strs_view(
                c.suspicious_patterns@,
            ),
            r.whitelist@ == spec_parse_ips(crate::config::strs_view(c.whitelist@)),
            r.blacklist@ == spec_parse_ips(crate::config::strs_view(c.blacklist@)),
    {
        let mut patterns: Vec<String> = Vec::new();
        let mut i: usize = 0;
        proof {
            assert(crate::config::strs_view(patterns@) =~= crate::config::strs_view(
                c.suspicious_patterns@,
            ).take(0));
        }
        while i < c.suspicious_patterns.len()
            invariant
                i <= c.suspicious_patterns@.len(),
                crate::config::strs_view(patterns@) == crate::config::strs_view(
                    c.suspicious_patterns@,
                ).take(i as int),
            decreases c.suspicious_patterns@.len() - i,
        {
            let p = crate::config::clone_string(&c.suspicious_patterns[i]);
            patterns.push(p);
            proof {
                assert(crate::config::strs_view(patterns@) =~= crate::config::strs_view(
                    c.suspicious_patterns@,
                ).take(i as int).push(c.suspicious_patterns@[i as int]@));
                assert(crate::config::strs_view(c.suspicious_patterns@).take(i + 1)
                    =~= crate::config::strs_view(c.suspicious_patterns@).take(i as int).push(
                    c.suspicious_patterns@[i as int]@,
                ));
            }
            i += 1;
        }
        proof {
            assert(crate::config::strs_view(c.suspicious_patterns@).take(i as int)
                =~= crate::config::strs_view(c.suspicious_patterns@));
        }
        DdosConfig {
            reset_interval_seconds: c.reset_interval_seconds,
            max_requests_per_minute: c.max_requests_per_minute,
            max_connections_per_ip: c.max_connections_per_ip,
            suspicious_patterns: patterns,
            whitelist: parse_ip_list(&c.whitelist),
            blacklist: parse_ip_list(&c.blacklist),
        }
    }
}

/// One address's activity as callers read it; the table stores it as the
/// plain triple.
#[derive(Debug, Clone, Copy)]
pub struct IpActivity {
    pub request_count: u32,
    pub connection_count: u32,
    pub last_request_ms: u64,
}

impl Default for IpActivity {
    fn default() -> (r: IpActivity)
        ensures
            r.request_count == 0,
            r.connection_count == 0,
            r.last_request_ms == 0,
    {
        IpActivity { request_count: 0, connection_count: 0, last_request_ms: 0 }
    }
}

pub struct DdosProtection {
    activity: ActivityMap,
    config: DdosConfig,
}

impl DdosProtection {
    /// The per-address table.
    pub closed spec fn spec_activity(self) -> Map<u128, (u32, u32, u64)> {
        activity_contents(self.activity)
    }

    /// The configured limits and lists.
    pub closed spec fn spec_config(self) -> DdosConfig {
        self.config
    }

    pub fn new(config: DdosConfig) -> (r: Self)
        ensures
            r.spec_activity() == Map::<u128, (u32, u32, u64)>::empty(),
            r.spec_config() == config,
    {
        Self { activity: activity_map_new(), config }
    }

    /// Whether `ip` is on the allow list.
    pub open spec fn spec_whitelisted(self, ip: IpAddress) -> bool {
        self.spec_config().whitelist@.contains(ip)
    }

    /// Whether `ip` is on the deny list.
    pub open spec fn spec_blacklisted(self, ip: IpAddress) -> bool {
        self.spec_config().blacklist@.contains(ip)
    }

    fn in_list(list: &Vec<IpAddress>, ip: IpAddress) -> (r: bool)
        ensures
            r == list@.contains(ip),
    {
        let mut i: usize = 0;
        while i < list.len()
            invariant
                i <= list@.len(),
                forall|j: int| 0 <= j < i ==> #[trigger] list@[j] != ip,
            decreases list@.len() - i,
        {
            if list[i] == ip {
                proof {
                    assert(list@[i as int] == ip);
                }
                return true;
            }
            i += 1;
        }
        false
    }

    /// The entry under which `ip` is tracked, or a fresh one first seen at
    /// `now_ms`.
    pub open spec fn spec_entry_or_new(self, ip: IpAddress, now_ms: u64) -> (u32, u32, u64) {
        if self.spec_activity().contains_key(ip.spec_key()) {
            self.spec_activity()[ip.spec_key()]
        } else {
            (0u32, 0u32, now_ms)
        }
    }

    /// Admit or reject one request from `ip` at `now_ms`: allow-listed
    /// addresses always pass, deny-listed ones never do; otherwise the
    /// request count over the last minute is held under the configured
    /// bound. The table keeps the updated entry.
    pub fn check_rate_limit(&mut self, ip: IpAddress, now_ms: u64) -> (r: bool)
        ensures
            ({
                let e0 = old(self).spec_entry_or_new(ip, now_ms);
                let cleared = now_ms >= e0.2 + 60000;
                let e1 = if cleared {
                    (0u32, e0.1, e0.2)
                } else {
                    e0
                };
                &&& final(self).spec_config() == old(self).spec_config()
                &&& (old(self).spec_whitelisted(ip) ==> r && *final(self) == *old(self))
                &&& (!old(self).spec_whitelisted(ip) && old(self).spec_blacklisted(ip) ==> !r
                    && *final(self) == *old(self))
                &&& (!old(self).spec_whitelisted(ip) && !old(self).spec_blacklisted(ip)
                    ==> match old(self).spec_config().max_requests_per_minute {
                    Some(max) => {
                        &&& r == (e1.0 < max)
                        &&& (r ==> final(self).spec_activity() == old(self).spec_activity().insert(
                            ip.spec_key(),
                            ((e1.0 + 1) as u32, e1.1, now_ms),
                        ))
                        &&& (!r ==> final(self).spec_activity() == old(
                            self,
                        ).spec_activity().insert(ip.spec_key(), e1))
                    },
                    None => r && final(self).spec_activity() == old(self).spec_activity().insert(
                        ip.spec_key(),
                        e0,
                    ),
                })
            }),
    {
        if Self::in_list(&self.config.whitelist, ip) {
            return true;
        }
        if Self::in_list(&self.config.blacklist, ip) {
            return false;
        }
        let key = ip.key();
        let mut entry = match activity_map_get(&self.activity, key) {
            Some(e) => e,
            None => (0, 0, now_ms),
        };
        match self.config.max_requests_per_minute {
            Some(max) => {
                if now_ms >= 60000 && now_ms - 60000 >= entry.2 {
                    entry.0 = 0;
                }
                if entry.0 >= max {
                    activity_map_insert(&mut self.activity, key, entry);
                    false
                } else {
                    entry.0 = entry.0 + 1;
                    entry.2 = now_ms;
                    activity_map_insert(&mut self.activity, key, entry);
                    true
                }
            },
            None => {
                activity_map_insert(&mut self.activity, key, entry);
                true
            },
        }
    }

    /// Admit or reject one new connection from `ip`: list handling as for
    /// requests, then the live-connection count is held under the
    /// configured bound.
    pub fn check_connection_limit(&mut self, ip: IpAddress, now_ms: u64) -> (r: bool)
        ensures
            ({
                let e0 = old(self).spec_entry_or_new(ip, now_ms);
                &&& final(self).spec_config() == old(self).spec_config()
                &&& (old(self).spec_whitelisted(ip) ==> r && *final(self) == *old(self))
                &&& (!old(self).spec_whitelisted(ip) && old(self).spec_blacklisted(ip) ==> !r
                    && *final(self) == *old(self))
                &&& (!old(self).spec_whitelisted(ip) && !old(self).spec_blacklisted(ip)
                    ==> match old(self).spec_config().max_connections_per_ip {
                    Some(max) => {
                        &&& r == (e0.1 < max)
                        &&& (r ==> final(self).spec_activity() == old(self).spec_activity().insert(
                            ip.spec_key(),
                            (e0.0, (e0.1 + 1) as u32, e0.2),
                        ))
                        &&& (!r ==> final(self).spec_activity() == old(
                            self,
                        ).spec_activity().insert(ip.spec_key(), e0))
                    },
                    None => r && final(self).spec_activity() == old(self).spec_activity().insert(
                        ip.spec_key(),
                        e0,
                    ),
                })
            }),
    {
        if Self::in_list(&self.config.whitelist, ip) {
            return true;
        }
        if Self::in_list(&self.config.blacklist, ip) {
            return false;
        }
        let key = ip.key();
        let mut entry = match activity_map_get(&self.activity, key) {
            Some(e) => e,
            None => (0, 0, now_ms),
        };
        match self.config.max_connections_per_ip {
            Some(max) => {
                if entry.1 >= max {
                    activity_map_insert(&mut self.activity, key, entry);
                    false
                } else {
                    entry.1 = entry.1 + 1;
                    activity_map_insert(&mut self.activity, key, entry);
                    true
                }
            },
            None => {
                activity_map_insert(&mut self.activity, key, entry);
                true
            },
        }
    }

    /// Release one connection from `ip`; the count never goes below zero,
    /// and an unknown address changes nothing.
    pub fn connection_closed(&mut self, ip: IpAddress)
        ensures
            final(self).spec_config() == old(self).spec_config(),
            ({
                let k = ip.spec_key();
                if old(self).spec_activity().contains_key(k) && old(self).spec_activity()[k].1 > 0 {
                    final(self).spec_activity() == old(self).spec_activity().insert(
                        k,
                        (
                            old(self).spec_activity()[k].0,
                            (old(self).spec_activity()[k].1 - 1) as u32,
                            old(self).spec_activity()[k].2,
                        ),
                    )
                } else {
                    *final(self) == *old(self)
                }
            }),
    {
        let key = ip.key();
        match activity_map_get(&self.activity, key) {
            Some(e) => {
                if e.1 > 0 {
                    activity_map_insert(&mut self.activity, key, (e.0, e.1 - 1, e.2));
                }
            },
            None => {},
        }
    }

    /// Whether a client description passes the suspicious-pattern screen:
    /// it fails exactly when, lower-cased, it contains some configured
    /// pattern, lower-cased.
    pub fn check_suspicious_pattern(&self, user_agent: Option<&str>) -> (r: bool)
        ensures
            match user_agent {
                None => r,
                Some(ua) => r == !(exists|i: int|
                    0 <= i < self.spec_config().suspicious_patterns@.len() && spec_contains_sub(
                        vstd::utf8::encode_utf8(lower_of(ua@)),
                        vstd::utf8::encode_utf8(
                            lower_of(#[trigger] self.spec_config().suspicious_patterns@[i]@),
                        ),
                    )),
            },
    {
        let ua = match user_agent {
            Some(u) => u,
            None => {
                return true;
            },
        };
        let hay = lowercase(ua);
        let hay_bytes = hay.as_str().as_bytes();
        let mut i: usize = 0;
        while i < self.config.suspicious_patterns.len()
            invariant
                user_agent == Some(ua),
                i <= self.config.suspicious_patterns@.len(),
                hay@ == lower_of(ua@),
                hay_bytes@ == vstd::utf8::encode_utf8(lower_of(ua@)),
                forall|j: int|
                    0 <= j < i ==> !spec_contains_sub(
                        vstd::utf8::encode_utf8(lower_of(ua@)),
                        vstd::utf8::encode_utf8(
                            lower_of(#[trigger] self.config.suspicious_patterns@[j]@),
                        ),
                    ),
            decreases self.config.suspicious_patterns@.len() - i,
        {
            let pat = lowercase(self.config.suspicious_patterns[i].as_str());
            if contains_sub(hay_bytes, pat.as_str().as_bytes()) {
                proof {
                    assert(spec_contains_sub(
                        vstd::utf8::encode_utf8(lower_of(ua@)),
                        vstd::utf8::encode_utf8(
                            lower_of(self.config.suspicious_patterns@[i as int]@),
                        ),
                    ));
                }
                return false;
            }
            i += 1;
        }
        true
    }

    /// Zero every address's request and connection counters, keeping the
    /// recorded request times.
    pub fn reset_counters(&mut self)
        ensures
            final(self).spec_config() == old(self).spec_config(),
            final(self).spec_activity().dom() == old(self).spec_activity().dom(),
            forall|k: u128|
                old(self).spec_activity().contains_key(k) ==> final(self).spec_activity()[k] == (
                    0u32,
                    0u32,
                    (#[trigger] old(self).spec_activity()[k]).2,
                ),
    {
        let keys = activity_map_keys(&self.activity);
        let mut i: usize = 0;
        while i < keys.len()
            invariant
                i <= keys@.len(),
                keys@.no_duplicates(),
                forall|k: u128|
                    keys@.contains(k) <==> old(self).spec_activity().dom().contains(k),
                self.spec_config() == old(self).spec_config(),
                self.spec_activity().dom() == old(self).spec_activity().dom(),
                forall|k: u128|
                    old(self).spec_activity().contains_key(k) ==> self.spec_activity()[k] == (
                    if keys@.take(i as int).contains(k) {
                        (0u32, 0u32, (#[trigger] old(self).spec_activity()[k]).2)
                    } else {
                        old(self).spec_activity()[k]
                    }),
            decreases keys@.len() - i,
        {
            let k = keys[i];
            proof {
                assert(keys@.contains(keys@[i as int]));
                if keys@.take(i as int).contains(keys@[i as int]) {
                    let j = choose|j: int|
                        0 <= j < i && keys@.take(i as int)[j] == keys@[i as int];
                    assert(keys@[j] == keys@[i as int]);
                    assert(false);
                }
            }
            match activity_map_get(&self.activity, k) {
                Some(e) => {
                    activity_map_insert(&mut self.activity, k, (0, 0, e.2));
                },
                None => {
                    proof {
                        assert(false);
                    }
                },
            }
            proof {
                assert(keys@.take(i + 1) =~= keys@.take(i as int).push(keys@[i as int]));
                assert forall|k2: u128|
                    old(self).spec_activity().contains_key(k2) implies self.spec_activity()[k2]
                    == (if keys@.take(i + 1).contains(k2) {
                    (0u32, 0u32, (old(self).spec_activity()[k2]).2)
                } else {
                    old(self).spec_activity()[k2]
                }) by {
                    let tk = keys@.take(i as int);
                    let tk1 = keys@.take(i + 1);
                    if k2 == keys@[i as int] {
                        assert(tk1[i as int] == k2);
                        assert(tk1.contains(k2));
                    } else {
                        if tk1.contains(k2) {
                            let j = choose|j: int| 0 <= j < tk1.len() && tk1[j] == k2;
                            assert(j < i);
                            assert(tk[j] == k2);
                            assert(tk.contains(k2));
                        }
                        if tk.contains(k2) {
                            let j = choose|j: int| 0 <= j < tk.len() && tk[j] == k2;
                            assert(tk1[j] == k2);
                            assert(tk1.contains(k2));
                        }
                    }
                }
            }
            i += 1;
        }
        proof {
            assert(keys@.take(i as int) =~= keys@);
        }
    }

    /// The tracked activity of one address; an address never seen has
    /// zeroed counters.
    pub fn activity_for(&self, ip: IpAddress) -> (r: IpActivity)
        ensures
            ({
                let k = ip.spec_key();
                if self.spec_activity().contains_key(k) {
                    r.request_count == self.spec_activity()[k].0 && r.connection_count
                        == self.spec_activity()[k].1 && r.last_request_ms
                        == self.spec_activity()[k].2
                } else {
                    r.request_count == 0 && r.connection_count == 0 && r.last_request_ms == 0
                }
            }),
    {
        match activity_map_get(&self.activity, ip.key()) {
            Some(e) => IpActivity {
                request_count: e.0,
                connection_count: e.1,
                last_request_ms: e.2,
            },
            None => IpActivity::default(),
        }
    }

    pub fn reset_interval_seconds(&self) -> (r: u64)
        ensures
            r == self.spec_config().reset_interval_seconds,
    {
        self.config.reset_interval_seconds
    }
}

} // verus!
