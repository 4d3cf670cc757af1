//! The decision core of the proxy: the global connection gate, backend
//! selection over a frontend's rules, installing health snapshots into a
//! backend's picker, and the byte-relay step. The sockets, tasks and timers
//! around these decisions live in the surrounding application.

use vstd::prelude::*;
use vstd::string::StrSliceExecFns;
use vstd::string::StringSliceAdditionalSpecFns;
use crate::acl;
use crate::acl::Acl;
use crate::acl::AclCondV;
use crate::balancer::BackendLoadBalancer;
use crate::balancer::ServerState;
use crate::config::ConfigError;
use crate::config::FrontendConfig;
use crate::health::ServerStatus;
use crate::scan;
use crate::utils::IpAddress;

verus! {

/// The sum of all per-frontend connection counts.
pub open spec fn spec_counts_sum(counts: Seq<(String, u64)>) -> int
    decreases counts.len(),
{
    if counts.len() == 0 {
        0
    } else {
        spec_counts_sum(counts.drop_last()) + counts.last().1
    }
}

/// The global connection gate: one count of accepted-but-unfinished
/// connections per frontend, admitted only while the total stays under the
/// configured ceiling.
pub struct ConnectionGate {
    maxconn: u32,
    counts: Vec<(String, u64)>,
    total: u64,
}

/// Growing one count grows the sum by the same amount.
proof fn lemma_sum_update(counts: Seq<(String, u64)>, i: int, v: u64)
    requires
        0 <= i < counts.len(),
    ensures
        spec_counts_sum(counts.update(i, (counts[i].0, v))) == spec_counts_sum(counts) + v
            - counts[i].1,
    decreases counts.len(),
{
    if counts.len() > 0 {
        if i == counts.len() - 1 {
            assert(counts.update(i, (counts[i].0, v)).drop_last() =~= counts.drop_last());
        } else {
            lemma_sum_update(counts.drop_last(), i, v);
            assert(counts.update(i, (counts[i].0, v)).drop_last() =~= counts.drop_last().update(
                i,
                (counts[i].0, v),
            ));
        }
    }
}

/// Every count is no more than the sum of all of them.
proof fn lemma_sum_bounds_element(counts: Seq<(String, u64)>, i: int)
    requires
        0 <= i < counts.len(),
    ensures
        counts[i].1 <= spec_counts_sum(counts),
        spec_counts_sum(counts) >= 0,
    decreases counts.len(),
{
    lemma_sum_nonneg(counts);
    if i == counts.len() - 1 {
        lemma_sum_nonneg(counts.drop_last());
    } else {
        lemma_sum_bounds_element(counts.drop_last(), i);
    }
}

proof fn lemma_sum_nonneg(counts: Seq<(String, u64)>)
    ensures
        spec_counts_sum(counts) >= 0,
    decreases counts.len(),
{
    if counts.len() > 0 {
        lemma_sum_nonneg(counts.drop_last());
    }
}

/// Index of a frontend's count, or -1 when it has none yet.
pub open spec fn spec_count_index(counts: Seq<(String, u64)>, name: Seq<char>) -> int
    decreases counts.len(),
{
    if counts.len() == 0 {
        -1
    } else if counts[0].0@ == name {
        0
    } else {
        let r = spec_count_index(counts.drop_first(), name);
        if r == -1 {
            -1
        } else {
            r + 1
        }
    }
}

proof fn lemma_count_index_at(counts: Seq<(String, u64)>, name: Seq<char>, i: int)
    requires
        0 <= i < counts.len(),
        counts[i].0@ == name,
        forall|j: int| 0 <= j < i ==> #[trigger] counts[j].0@ != name,
    ensures
        spec_count_index(counts, name) == i,
    decreases i,
{
    if i > 0 {
        assert forall|j: int|
            0 <= j < i - 1 implies #[trigger] counts.drop_first()[j].0@ != name by {
            assert(counts.drop_first()[j] == counts[j + 1]);
        }
        assert(counts.drop_first()[i - 1] == counts[i as int]);
        lemma_count_index_at(counts.drop_first(), name, i - 1);
    }
}

proof fn lemma_count_index_none(counts: Seq<(String, u64)>, name: Seq<char>)
    requires
        forall|j: int| 0 <= j < counts.len() ==> #[trigger] counts[j].0@ != name,
    ensures
        spec_count_index(counts, name) == -1,
    decreases counts.len(),
{
    if counts.len() > 0 {
        assert forall|j: int|
            0 <= j < counts.drop_first().len() implies #[trigger] counts.drop_first()[j].0@
            != name by {
            assert(counts.drop_first()[j] == counts[j + 1]);
        }
        lemma_count_index_none(counts.drop_first(), name);
    }
}

impl ConnectionGate {
    pub closed spec fn spec_maxconn(self) -> u32 {
        self.maxconn
    }

    pub closed spec fn spec_total(self) -> u64 {
        self.total
    }

    pub closed spec fn spec_counts(self) -> Seq<(String, u64)> {
        self.counts@
    }

    /// The running total is the sum of the per-frontend counts and stays
    /// at or under the configured cap.
    pub closed spec fn wf(self) -> bool {
        self.total == spec_counts_sum(self.counts@) && self.total <= self.maxconn
    }

    /// Law: whatever sequence of accepts and releases has happened, the
    /// count of accepted-but-unfinished connections stays at or under the
    /// cap.
    pub proof fn lemma_within_cap(self)
        requires
            self.wf(),
        ensures
            spec_counts_sum(self.spec_counts()) <= self.spec_maxconn(),
    {
    }

    pub fn new(maxconn: u32) -> (r: Self)
        ensures
            r.wf(),
            r.spec_total() == 0,
            r.spec_maxconn() == maxconn,
    {
        let r = Self { maxconn, counts: Vec::new(), total: 0 };
        proof {
            assert(spec_counts_sum(r.counts@) == 0);
        }
        r
    }

    /// Admit one connection on `frontend` if the total is still under the
    /// cap; when admitted, that frontend's count (created at zero for one
    /// not seen before) and the total each grow by one.
    pub fn try_accept(&mut self, frontend: &str) -> (r: bool)
        requires
            old(self).wf(),
        ensures
            final(self).wf(),
            r == (old(self).spec_total() < old(self).spec_maxconn()),
            !r ==> *final(self) == *old(self),
            final(self).spec_maxconn() == old(self).spec_maxconn(),
            r ==> final(self).spec_total() == old(self).spec_total() + 1,
            r ==> ({
                let i = spec_count_index(old(self).spec_counts(), frontend@);
                if i == -1 {
                    &&& final(self).spec_counts().len() == old(self).spec_counts().len() + 1
                    &&& final(self).spec_counts().drop_last() == old(self).spec_counts()
                    &&& final(self).spec_counts().last().0@ == frontend@
                    &&& final(self).spec_counts().last().1 == 1
                } else {
                    final(self).spec_counts() == old(self).spec_counts().update(
                        i,
                        (old(self).spec_counts()[i].0, (old(self).spec_counts()[i].1 + 1) as u64),
                    )
                }
            }),
    {
        if self.total >= self.maxconn as u64 {
            return false;
        }
        let ghost counts0 = self.counts@;
        let mut i: usize = 0;
        while i < self.counts.len()
            invariant
                i <= self.counts@.len(),
                self.counts@ == counts0,
                counts0 == old(self).spec_counts(),
                self.total == old(self).spec_total(),
                self.maxconn == old(self).spec_maxconn(),
                self.total == spec_counts_sum(counts0),
                self.total < self.maxconn,
                forall|j: int| 0 <= j < i ==> #[trigger] counts0[j].0@ != frontend@,
            decreases self.counts@.len() - i,
        {
            if scan::str_eq(self.counts[i].0.as_str(), frontend) {
                proof {
                    lemma_count_index_at(counts0, frontend@, i as int);
                    lemma_sum_bounds_element(counts0, i as int);
                    lemma_sum_update(counts0, i as int, (counts0[i as int].1 + 1) as u64);
                }
                let v = self.counts[i].1;
                self.counts[i].1 = v + 1;
                self.total = self.total + 1;
                proof {
                    assert(self.counts@ =~= counts0.update(
                        i as int,
                        (counts0[i as int].0, (counts0[i as int].1 + 1) as u64),
                    ));
                }
                return true;
            }
            i += 1;
        }
        proof {
            lemma_count_index_none(counts0, frontend@);
        }
        let name = frontend.to_owned();
        self.counts.push((name, 1));
        self.total = self.total + 1;
        proof {
            assert(self.counts@.drop_last() =~= counts0);
        }
        true
    }

    /// Release one connection on `frontend`: its count and the total drop
    /// by one. A count never goes below zero, and an unknown frontend
    /// changes nothing.
    pub fn connection_closed(&mut self, frontend: &str)
        requires
            old(self).wf(),
        ensures
            final(self).wf(),
            final(self).spec_maxconn() == old(self).spec_maxconn(),
            ({
                let i = spec_count_index(old(self).spec_counts(), frontend@);
                if i == -1 || old(self).spec_counts()[i].1 == 0 {
                    *final(self) == *old(self)
                } else {
                    final(self).spec_counts() == old(self).spec_counts().update(
                        i,
                        (old(self).spec_counts()[i].0, (old(self).spec_counts()[i].1 - 1) as u64),
                    ) && final(self).spec_total() == old(self).spec_total() - 1
                }
            }),
    {
        let ghost counts0 = self.counts@;
        let mut i: usize = 0;
        while i < self.counts.len()
            invariant
                i <= self.counts@.len(),
                *self == *old(self),
                old(self).wf(),
                counts0 == old(self).spec_counts(),
                forall|j: int| 0 <= j < i ==> #[trigger] counts0[j].0@ != frontend@,
            decreases self.counts@.len() - i,
        {
            if scan::str_eq(self.counts[i].0.as_str(), frontend) {
                proof {
                    lemma_count_index_at(counts0, frontend@, i as int);
                }
                let v = self.counts[i].1;
                if v > 0 {
                    proof {
                        lemma_sum_bounds_element(counts0, i as int);
                        lemma_sum_update(counts0, i as int, (counts0[i as int].1 - 1) as u64);
                    }
                    self.counts[i].1 = v - 1;
                    self.total = self.total - 1;
                    proof {
                        assert(self.counts@ =~= counts0.update(
                            i as int,
                            (counts0[i as int].0, (counts0[i as int].1 - 1) as u64),
                        ));
                    }
                }
                return ;
            }
            i += 1;
        }
        proof {
            lemma_count_index_none(counts0, frontend@);
        }
    }

    /// The number of accepted-but-unfinished connections.
    pub fn total_active(&self) -> (r: u64)
        ensures
            r == self.spec_total(),
    {
        self.total
    }
}

/// The named ACLs of a frontend, parsed once.
pub open spec fn spec_acl_views(acls: Seq<(String, Acl)>) -> Seq<(Seq<char>, Seq<AclCondV>)> {
    acls.map_values(|p: (String, Acl)| (p.0@, p.1@))
}

/// Build the named ACLs of a frontend: succeeds exactly when every
/// criterion parses, failing on the first that does not.
pub fn build_acls(frontend: &FrontendConfig) -> (r: Result<Vec<(String, Acl)>, ConfigError>)
    ensures
        r is Err ==> exists|i: int|
            0 <= i < frontend.acl@.len() && acl::spec_parse_criterion(
                vstd::utf8::encode_utf8((#[trigger] frontend.acl@[i]).criterion@),
            ) is None,
        r matches Ok(v) ==> {
            &&& v@.len() == frontend.acl@.len()
            &&& forall|i: int|
                0 <= i < v@.len() ==> ((#[trigger] v@[i]).0@ == frontend.acl@[i].name@
                    && (acl::spec_parse_criterion(
                    vstd::utf8::encode_utf8(frontend.acl@[i].criterion@),
                ) matches Some(c) && v@[i].1@ == seq![c]) && acl::spec_acl_wf(v@[i].1@))
        },
{
    let mut v: Vec<(String, Acl)> = Vec::new();
    let mut i: usize = 0;
    while i < frontend.acl.len()
        invariant
            i <= frontend.acl@.len(),
            v@.len() == i,
            forall|j: int|
                0 <= j < i ==> ((#[trigger] v@[j]).0@ == frontend.acl@[j].name@
                    && (acl::spec_parse_criterion(
                    vstd::utf8::encode_utf8(frontend.acl@[j].criterion@),
                ) matches Some(c) && v@[j].1@ == seq![c]) && acl::spec_acl_wf(v@[j].1@)),
        decreases frontend.acl@.len() - i,
    {
        let a = &frontend.acl[i];
        let parsed = match Acl::from_config(a) {
            Ok(p) => p,
            Err(e) => {
                proof {
                    assert(acl::spec_parse_criterion(
                        vstd::utf8::encode_utf8(frontend.acl@[i as int].criterion@),
                    ) is None);
                }
                return Err(e);
            },
        };
        v.push((crate::config::clone_string(&a.name), parsed));
        i += 1;
    }
    Ok(v)
}

/// Whether a `use_backend` condition holds: a bare name must name an ACL
/// that holds, `!name` one that does not; an unknown name never holds, and
/// a rule without a condition always applies.
pub open spec fn spec_condition_holds(
    cond: Option<Seq<char>>,
    acls: Seq<(Seq<char>, Seq<AclCondV>)>,
    ip: IpAddress,
    port: u16,
    frontend_port: u16,
) -> bool {
    match cond {
        None => true,
        Some(c) => {
            let all = scan::spec_tokens(vstd::utf8::encode_utf8(c));
            let toks = if all.len() >= 1 && all[0] == "if".spec_bytes() {
                all.drop_first()
            } else {
                all
            };
            if toks.len() == 0 || !scan::all_ascii(toks[0]) {
                false
            } else if toks[0][0] == 33 {
                let i = spec_acl_index(acls, scan::ascii_view(toks[0]).drop_first());
                if i == -1 {
                    false
                } else {
                    !acl::spec_eval(acls[i].1, ip, port, frontend_port)
                }
            } else {
                let i = spec_acl_index(acls, scan::ascii_view(toks[0]));
                if i == -1 {
                    false
                } else {
                    acl::spec_eval(acls[i].1, ip, port, frontend_port)
                }
            }
        },
    }
}

/// Index of the first ACL with the given name, or -1.
pub open spec fn spec_acl_index(acls: Seq<(Seq<char>, Seq<AclCondV>)>, name: Seq<char>) -> int
    decreases acls.len(),
{
    if acls.len() == 0 {
        -1
    } else if acls[0].0 == name {
        0
    } else {
        let r = spec_acl_index(acls.drop_first(), name);
        if r == -1 {
            -1
        } else {
            r + 1
        }
    }
}

/// The backend a frontend routes this client to: the first `use_backend`
/// rule whose condition holds, else the default backend, else none and the
/// connection is refused.
pub open spec fn spec_select_backend(
    fe: crate::config::FrontendV,
    acls: Seq<(Seq<char>, Seq<AclCondV>)>,
    ip: IpAddress,
    port: u16,
    frontend_port: u16,
) -> Option<Seq<char>> {
    let matched = spec_first_rule(fe.use_backend, acls, ip, port, frontend_port);
    if matched >= 0 {
        Some(fe.use_backend[matched].backend)
    } else {
        fe.default_backend
    }
}

/// Index of the first matching `use_backend` rule, or -1.
pub open spec fn spec_first_rule(
    rules: Seq<crate::config::UseBackendV>,
    acls: Seq<(Seq<char>, Seq<AclCondV>)>,
    ip: IpAddress,
    port: u16,
    frontend_port: u16,
) -> int
    decreases rules.len(),
{
    if rules.len() == 0 {
        -1
    } else if spec_condition_holds(rules[0].condition, acls, ip, port, frontend_port) {
        0
    } else {
        let r = spec_first_rule(rules.drop_first(), acls, ip, port, frontend_port);
        if r == -1 {
            -1
        } else {
            r + 1
        }
    }
}

/// Look up the first ACL with the given name.
fn find_acl<'a>(acls: &'a Vec<(String, Acl)>, name: &str) -> (r: Option<&'a Acl>)
    ensures
        ({
            let i = spec_acl_index(spec_acl_views(acls@), name@);
            match r {
                Some(a) => 0 <= i < acls@.len() && a@ == spec_acl_views(acls@)[i].1,
                None => i == -1,
            }
        }),
{
    let ghost views = spec_acl_views(acls@);
    let mut i: usize = 0;
    while i < acls.len()
        invariant
            i <= acls@.len(),
            views == spec_acl_views(acls@),
            forall|j: int| 0 <= j < i ==> #[trigger] views[j].0 != name@,
        decreases acls@.len() - i,
    {
        if scan::str_eq(acls[i].0.as_str(), name) {
            proof {
                assert(views[i as int].0 == name@);
                lemma_acl_index_at(views, name@, i as int);
            }
            return Some(&acls[i].1);
        }
        i += 1;
    }
    proof {
        lemma_acl_index_none(views, name@);
    }
    None
}

proof fn lemma_acl_index_at(acls: Seq<(Seq<char>, Seq<AclCondV>)>, name: Seq<char>, i: int)
    requires
        0 <= i < acls.len(),
        acls[i].0 == name,
        forall|j: int| 0 <= j < i ==> #[trigger] acls[j].0 != name,
    ensures
        spec_acl_index(acls, name) == i,
    decreases i,
{
    if i > 0 {
        assert forall|j: int| 0 <= j < i - 1 implies #[trigger] acls.drop_first()[j].0 != name by {
            assert(acls.drop_first()[j] == acls[j + 1]);
        }
        assert(acls.drop_first()[i - 1] == acls[i as int]);
        lemma_acl_index_at(acls.drop_first(), name, i - 1);
    }
}

proof fn lemma_acl_index_none(acls: Seq<(Seq<char>, Seq<AclCondV>)>, name: Seq<char>)
    requires
        forall|j: int| 0 <= j < acls.len() ==> #[trigger] acls[j].0 != name,
    ensures
        spec_acl_index(acls, name) == -1,
    decreases acls.len(),
{
    if acls.len() > 0 {
        assert forall|j: int|
            0 <= j < acls.drop_first().len() implies #[trigger] acls.drop_first()[j].0 != name by {
            assert(acls.drop_first()[j] == acls[j + 1]);
        }
        lemma_acl_index_none(acls.drop_first(), name);
    }
}

/// Whether one `use_backend` condition text holds for this client.
fn condition_holds(
    cond: &Option<String>,
    acls: &Vec<(String, Acl)>,
    ip: IpAddress,
    port: u16,
    frontend_port: u16,
) -> (r: bool)
    requires
        forall|i: int|
            0 <= i < acls@.len() ==> acl::spec_acl_wf((#[trigger] acls@[i]).1@),
    ensures
        r == spec_condition_holds(
            crate::config::opt_view(*cond),
            spec_acl_views(acls@),
            ip,
            port,
            frontend_port,
        ),
{
    let c = match cond {
        Some(c) => c,
        None => {
            return true;
        },
    };
    let bytes = c.as_str().as_bytes_vec();
    let tokens = scan::split_ws(bytes.as_slice());
    let ghost all = scan::spec_tokens(vstd::utf8::encode_utf8(c@));
    proof {
        assert(tokens.deep_view() == all);
    }
    // the rule keyword `if` introduces the condition
    let start: usize = if tokens.len() >= 1 && scan::is_lit(tokens[0].as_slice(), "if") {
        1
    } else {
        0
    };
    let ghost toks = if all.len() >= 1 && all[0] == "if".spec_bytes() {
        all.drop_first()
    } else {
        all
    };
    proof {
        if tokens.len() >= 1 {
            assert(tokens[0]@ == all[0]);
        }
    }
    if tokens.len() == start {
        return false;
    }
    let t0 = &tokens[start];
    proof {
        if start == 1 {
            assert(t0@ == all[1]);
            assert(toks[0] == all.drop_first()[0]);
        }
        assert(t0@ == toks[0]);
        scan::lemma_tokens_wf(vstd::utf8::encode_utf8(c@));
        assert(all[start as int].len() > 0);
        assert(t0@.len() > 0);
    }
    if !scan::check_ascii(t0.as_slice()) {
        return false;
    }
    let negated = t0[0] == 33;
    let name_bytes = if negated {
        vstd::slice::slice_subrange(t0.as_slice(), 1, t0.len())
    } else {
        vstd::slice::slice_subrange(t0.as_slice(), 0, t0.len())
    };
    proof {
        if negated {
            assert(scan::ascii_view(t0@.subrange(1, t0@.len() as int)) =~= scan::ascii_view(
                t0@,
            ).drop_first());
        } else {
            assert(t0@.subrange(0, t0@.len() as int) =~= t0@);
        }
        assert forall|k: int| 0 <= k < name_bytes@.len() implies name_bytes@[k] < 128 by {
            if negated {
                assert(name_bytes@[k] == t0@[k + 1]);
            } else {
                assert(name_bytes@[k] == t0@[k]);
            }
        }
    }
    let name = scan::tok_to_string(name_bytes);
    match find_acl(acls, name.as_str()) {
        Some(a) => {
            proof {
                let i = spec_acl_index(spec_acl_views(acls@), name@);
                lemma_acl_views_wf(acls@, i);
            }
            let holds = a.evaluate(ip, port, frontend_port);
            if negated {
                !holds
            } else {
                holds
            }
        },
        None => false,
    }
}

proof fn lemma_acl_views_wf(acls: Seq<(String, Acl)>, i: int)
    requires
        forall|j: int| 0 <= j < acls.len() ==> acl::spec_acl_wf((#[trigger] acls[j]).1@),
        0 <= i < acls.len(),
    ensures
        acl::spec_acl_wf(spec_acl_views(acls)[i].1),
{
    assert(spec_acl_views(acls)[i].1 == acls[i].1@);
}

/// Select the backend for one client per the frontend's routing rules:
/// the first `use_backend` rule whose condition holds, else the default
/// backend, else none. `frontend_port` is the port the connection was
/// accepted on.
pub fn select_backend(
    frontend: &FrontendConfig,
    acls: &Vec<(String, Acl)>,
    client_ip: IpAddress,
    client_port: u16,
    frontend_port: u16,
) -> (r: Option<String>)
    requires
        forall|i: int|
            0 <= i < acls@.len() ==> acl::spec_acl_wf((#[trigger] acls@[i]).1@),
    ensures
        ({
            let expected = spec_select_backend(
                frontend@,
                spec_acl_views(acls@),
                client_ip,
                client_port,
                frontend_port,
            );
            match r {
                Some(b) => expected == Some(b@),
                None => expected is None,
            }
        }),
{
    let ghost views = spec_acl_views(acls@);
    let ghost rules = frontend@.use_backend;
    let mut i: usize = 0;
    while i < frontend.use_backend.len()
        invariant
            i <= rules.len(),
            views == spec_acl_views(acls@),
            rules == frontend@.use_backend,
            forall|j: int|
                0 <= j < acls@.len() ==> acl::spec_acl_wf((#[trigger] acls@[j]).1@),
            forall|j: int|
                0 <= j < i ==> !spec_condition_holds(
                    (#[trigger] rules[j]).condition,
                    views,
                    client_ip,
                    client_port,
                    frontend_port,
                ),
        decreases rules.len() - i,
    {
        let ub = &frontend.use_backend[i];
        proof {
            assert(ub@ == rules[i as int]);
        }
        if condition_holds(&ub.condition, acls, client_ip, client_port, frontend_port) {
            proof {
                lemma_first_rule_at(rules, views, client_ip, client_port, frontend_port, i as int);
            }
            return Some(crate::config::clone_string(&ub.backend));
        }
        i += 1;
    }
    proof {
        lemma_first_rule_none(rules, views, client_ip, client_port, frontend_port);
    }
    match &frontend.default_backend {
        Some(b) => Some(crate::config::clone_string(b)),
        None => None,
    }
}

proof fn lemma_first_rule_at(
    rules: Seq<crate::config::UseBackendV>,
    acls: Seq<(Seq<char>, Seq<AclCondV>)>,
    ip: IpAddress,
    port: u16,
    frontend_port: u16,
    i: int,
)
    requires
        0 <= i < rules.len(),
        spec_condition_holds(rules[i].condition, acls, ip, port, frontend_port),
        forall|j: int|
            0 <= j < i ==> !spec_condition_holds(
                (#[trigger] rules[j]).condition,
                acls,
                ip,
                port,
                frontend_port,
            ),
    ensures
        spec_first_rule(rules, acls, ip, port, frontend_port) == i,
    decreases i,
{
    if i > 0 {
        assert forall|j: int|
            0 <= j < i - 1 implies !spec_condition_holds(
            (#[trigger] rules.drop_first()[j]).condition,
            acls,
            ip,
            port,
            frontend_port,
        ) by {
            assert(rules.drop_first()[j] == rules[j + 1]);
        }
        assert(rules.drop_first()[i - 1] == rules[i as int]);
        lemma_first_rule_at(rules.drop_first(), acls, ip, port, frontend_port, i - 1);
    }
}

proof fn lemma_first_rule_none(
    rules: Seq<crate::config::UseBackendV>,
    acls: Seq<(Seq<char>, Seq<AclCondV>)>,
    ip: IpAddress,
    port: u16,
    frontend_port: u16,
)
    requires
        forall|j: int|
            0 <= j < rules.len() ==> !spec_condition_holds(
                (#[trigger] rules[j]).condition,
                acls,
                ip,
                port,
                frontend_port,
            ),
    ensures
        spec_first_rule(rules, acls, ip, port, frontend_port) == -1,
    decreases rules.len(),
{
    if rules.len() > 0 {
        assert forall|j: int|
            0 <= j < rules.drop_first().len() implies !spec_condition_holds(
            (#[trigger] rules.drop_first()[j]).condition,
            acls,
            ip,
            port,
            frontend_port,
        ) by {
            assert(rules.drop_first()[j] == rules[j + 1]);
        }
        lemma_first_rule_none(rules.drop_first(), acls, ip, port, frontend_port);
    }
}

/// Index of the first snapshot entry with this server name, or -1.
pub open spec fn spec_status_index(statuses: Seq<(String, ServerStatus)>, name: Seq<char>) -> int
    decreases statuses.len(),
{
    if statuses.len() == 0 {
        -1
    } else if statuses[0].0@ == name {
        0
    } else {
        let r = spec_status_index(statuses.drop_first(), name);
        if r == -1 {
            -1
        } else {
            r + 1
        }
    }
}

proof fn lemma_status_index_at(statuses: Seq<(String, ServerStatus)>, name: Seq<char>, i: int)
    requires
        0 <= i < statuses.len(),
        statuses[i].0@ == name,
        forall|j: int| 0 <= j < i ==> #[trigger] statuses[j].0@ != name,
    ensures
        spec_status_index(statuses, name) == i,
    decreases i,
{
    if i > 0 {
        assert forall|j: int|
            0 <= j < i - 1 implies #[trigger] statuses.drop_first()[j].0@ != name by {
            assert(statuses.drop_first()[j] == statuses[j + 1]);
        }
        assert(statuses.drop_first()[i - 1] == statuses[i as int]);
        lemma_status_index_at(statuses.drop_first(), name, i - 1);
    }
}

proof fn lemma_status_index_none(statuses: Seq<(String, ServerStatus)>, name: Seq<char>)
    requires
        forall|j: int| 0 <= j < statuses.len() ==> #[trigger] statuses[j].0@ != name,
    ensures
        spec_status_index(statuses, name) == -1,
    decreases statuses.len(),
{
    if statuses.len() > 0 {
        assert forall|j: int|
            0 <= j < statuses.drop_first().len() implies #[trigger] statuses.drop_first()[j].0@
            != name by {
            assert(statuses.drop_first()[j] == statuses[j + 1]);
        }
        lemma_status_index_none(statuses.drop_first(), name);
    }
}

/// The status a snapshot gives a server: its first entry under that name,
/// or the status the server already has.
pub open spec fn spec_published_status(
    statuses: Seq<(String, ServerStatus)>,
    name: Seq<char>,
    current: ServerStatus,
) -> ServerStatus {
    let k = spec_status_index(statuses, name);
    if k == -1 {
        current
    } else {
        statuses[k].1
    }
}

/// Install a published health snapshot into a backend's picker: each server
/// named in the snapshot takes its published status, the others keep
/// theirs; nothing else about the pool changes.
pub fn apply_statuses(lb: &mut BackendLoadBalancer, statuses: &Vec<(String, ServerStatus)>)
    ensures
        final(lb).spec_servers().len() == old(lb).spec_servers().len(),
        final(lb).spec_balancer() == old(lb).spec_balancer(),
        forall|i: int|
            0 <= i < final(lb).spec_servers().len() ==> {
                let s0 = old(lb).spec_servers()[i];
                let s1 = (#[trigger] final(lb).spec_servers()[i]);
                &&& s1.config == s0.config
                &&& s1.weight == s0.weight
                &&& s1.active_connections == s0.active_connections
                &&& s1.status == spec_published_status(statuses@, s0.config.name@, s0.status)
            },
{
    let n = lb.servers_len();
    let mut i: usize = 0;
    while i < n
        invariant
            i <= n,
            n == lb.spec_servers().len(),
            lb.spec_servers().len() == old(lb).spec_servers().len(),
            lb.spec_balancer() == old(lb).spec_balancer(),
            forall|k: int|
                0 <= k < lb.spec_servers().len() ==> {
                    let s0 = old(lb).spec_servers()[k];
                    let s1 = (#[trigger] lb.spec_servers()[k]);
                    &&& s1.config == s0.config
                    &&& s1.weight == s0.weight
                    &&& s1.active_connections == s0.active_connections
                    &&& (k < i ==> s1.status == spec_published_status(
                        statuses@,
                        s0.config.name@,
                        s0.status,
                    ))
                    &&& (k >= i ==> s1.status == s0.status)
                },
        decreases n - i,
    {
        let name = crate::config::clone_string(&lb.get_server(i).config.name);
        let mut j: usize = 0;
        let mut found: Option<ServerStatus> = None;
        while j < statuses.len()
            invariant
                j <= statuses@.len(),
                found is None ==> forall|l: int| 0 <= l < j ==> #[trigger] statuses@[l].0@
                    != name@,
                found matches Some(st) ==> spec_status_index(statuses@, name@) >= 0 && st
                    == statuses@[spec_status_index(statuses@, name@)].1,
            decreases statuses@.len() - j,
        {
            if found.is_none() && scan::str_eq(statuses[j].0.as_str(), name.as_str()) {
                proof {
                    lemma_status_index_at(statuses@, name@, j as int);
                }
                found = Some(statuses[j].1);
            }
            j += 1;
        }
        proof {
            if found is None {
                lemma_status_index_none(statuses@, name@);
            }
        }
        match found {
            Some(st) => {
                lb.set_server_status(i, st);
            },
            None => {},
        }
        i += 1;
    }
}

/// The total of the per-server connection counters in a pool.
pub open spec fn spec_pool_active(ss: Seq<ServerState>) -> int
    decreases ss.len(),
{
    if ss.len() == 0 {
        0
    } else {
        spec_pool_active(ss.drop_last()) + ss.last().active_connections
    }
}

/// Law: counting a connection on one server raises the pool's total by
/// exactly one, so the total always equals the number of handlers that
/// counted themselves in and have not yet counted themselves out.
pub proof fn lemma_inc_active_total(ss: Seq<ServerState>, i: int)
    requires
        0 <= i < ss.len(),
        ss[i].active_connections < u32::MAX,
    ensures
        spec_pool_active(
            ss.update(
                i,
                ServerState {
                    active_connections: (ss[i].active_connections + 1) as u32,
                    ..ss[i]
                },
            ),
        ) == spec_pool_active(ss) + 1,
    decreases ss.len(),
{
    let updated = ss.update(
        i,
        ServerState { active_connections: (ss[i].active_connections + 1) as u32, ..ss[i] },
    );
    if i == ss.len() - 1 {
        assert(updated.drop_last() =~= ss.drop_last());
    } else {
        lemma_inc_active_total(ss.drop_last(), i);
        assert(updated.drop_last() =~= ss.drop_last().update(
            i,
            ServerState { active_connections: (ss[i].active_connections + 1) as u32, ..ss[i] },
        ));
    }
}

/// Law: releasing a connection from a busy server lowers the pool's total
/// by exactly one; it never drives a counter below zero.
pub proof fn lemma_dec_active_total(ss: Seq<ServerState>, i: int)
    requires
        0 <= i < ss.len(),
        ss[i].active_connections > 0,
    ensures
        spec_pool_active(
            ss.update(
                i,
                ServerState {
                    active_connections: (ss[i].active_connections - 1) as u32,
                    ..ss[i]
                },
            ),
        ) == spec_pool_active(ss) - 1,
    decreases ss.len(),
{
    let updated = ss.update(
        i,
        ServerState { active_connections: (ss[i].active_connections - 1) as u32, ..ss[i] },
    );
    if i == ss.len() - 1 {
        assert(updated.drop_last() =~= ss.drop_last());
    } else {
        lemma_dec_active_total(ss.drop_last(), i);
        assert(updated.drop_last() =~= ss.drop_last().update(
            i,
            ServerState { active_connections: (ss[i].active_connections - 1) as u32, ..ss[i] },
        ));
    }
}

/// The relay at the heart of the byte pump. Each chunk read from one side
/// is handed on unchanged; the ledger records everything relayed so far.
pub struct ByteRelay {
    pub forwarded: u64,
    pub log: Ghost<Seq<u8>>,
}

impl ByteRelay {
    pub fn new() -> (r: Self)
        ensures
            r.forwarded == 0,
            r.log@ == Seq::<u8>::empty(),
    {
        Self { forwarded: 0, log: Ghost(Seq::empty()) }
    }

    /// Law: the relay is faithful. The bytes handed out are exactly the
    /// bytes taken in, in order; nothing is dropped, invented or
    /// duplicated, and the ledger grows by exactly the chunk.
    pub fn relay_chunk(&mut self, chunk: &Vec<u8>) -> (out: Vec<u8>)
        ensures
            out@ == chunk@,
            final(self).log@ == old(self).log@ + chunk@,
            final(self).forwarded == (if old(self).forwarded + chunk@.len() <= u64::MAX {
                old(self).forwarded + chunk@.len()
            } else {
                u64::MAX as int
            }),
    {
        let out = vstd::slice::slice_to_vec(chunk.as_slice());
        self.forwarded = match self.forwarded.checked_add(chunk.len() as u64) {
            Some(v) => v,
            None => u64::MAX,
        };
        proof {
            self.log@ = self.log@ + chunk@;
        }
        out
    }
}

} // verus!
