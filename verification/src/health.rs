//! Health-check state machine. The supervisor task that opens probe sockets
//! lives outside the library; it reports each probe outcome here, and this
//! module decides the status transitions (rise / fall hysteresis) and serves
//! the status snapshots that pickers read.

use vstd::prelude::*;
use vstd::string::StrSliceExecFns;
use vstd::string::StringSliceAdditionalSpecFns;
use crate::config::BackendConfig;
use crate::config::ServerV;
use crate::scan;

verus! {

#[derive(Debug, Clone, Copy, PartialEq, Eq, Structural)]
pub enum ServerStatus {
    Up,
    Down,
    Maintenance,
}

/// Mutable probe state of one server. Times are reported by the caller as
/// milliseconds of an arbitrary monotonic clock.
#[derive(Debug, Clone, Copy)]
pub struct HealthState {
    pub status: ServerStatus,
    pub last_check_ms: u64,
    pub consecutive_failures: u32,
    pub consecutive_successes: u32,
    pub last_success_ms: Option<u64>,
    pub last_failure_ms: Option<u64>,
}

/// A counter bumped by one probe; it saturates rather than wraps, and it is
/// only ever compared against thresholds no larger than its maximum.
pub open spec fn bumped(c: u32) -> u32 {
    if c == u32::MAX {
        u32::MAX
    } else {
        (c + 1) as u32
    }
}

impl HealthState {
    /// The state a server starts in: Up with zeroed counters.
    pub open spec fn init() -> HealthState {
        HealthState {
            status: ServerStatus::Up,
            last_check_ms: 0,
            consecutive_failures: 0,
            consecutive_successes: 0,
            last_success_ms: None,
            last_failure_ms: None,
        }
    }

    /// Status after one probe: `rise` consecutive successes bring a server Up,
    /// `fall` consecutive failures bring it Down. Maintenance is set only by an
    /// admin operation and is never left because of a probe.
    pub open spec fn status_after_probe(self, success: bool, rise: u32, fall: u32) -> ServerStatus {
        if self.status is Maintenance {
            ServerStatus::Maintenance
        } else if success && bumped(self.consecutive_successes) >= rise {
            ServerStatus::Up
        } else if !success && bumped(self.consecutive_failures) >= fall {
            ServerStatus::Down
        } else {
            self.status
        }
    }

    /// Full state after one probe: one counter bumped, the opposite counter
    /// zeroed, timestamps refreshed, status per `status_after_probe`.
    pub open spec fn after_probe(self, success: bool, rise: u32, fall: u32, now_ms: u64) -> HealthState {
        HealthState {
            status: self.status_after_probe(success, rise, fall),
            last_check_ms: now_ms,
            consecutive_failures: if success {
                0
            } else {
                bumped(self.consecutive_failures)
            },
            consecutive_successes: if success {
                bumped(self.consecutive_successes)
            } else {
                0
            },
            last_success_ms: if success {
                Some(now_ms)
            } else {
                self.last_success_ms
            },
            last_failure_ms: if success {
                self.last_failure_ms
            } else {
                Some(now_ms)
            },
        }
    }

    /// Record one probe outcome. Returns whether the status changed.
    pub fn record_probe(&mut self, success: bool, rise: u32, fall: u32, now_ms: u64) -> (changed:
        bool)
        ensures
            *final(self) == old(self).after_probe(success, rise, fall, now_ms),
            changed == (final(self).status != old(self).status),
    {
        let old_status = self.status;
        if success {
            self.consecutive_successes = if self.consecutive_successes == u32::MAX {
                u32::MAX
            } else {
                self.consecutive_successes + 1
            };
            self.consecutive_failures = 0;
            self.last_success_ms = Some(now_ms);
            if self.status != ServerStatus::Maintenance && self.consecutive_successes >= rise {
                self.status = ServerStatus::Up;
            }
        } else {
            self.consecutive_failures = if self.consecutive_failures == u32::MAX {
                u32::MAX
            } else {
                self.consecutive_failures + 1
            };
            self.consecutive_successes = 0;
            self.last_failure_ms = Some(now_ms);
            if self.status != ServerStatus::Maintenance && self.consecutive_failures >= fall {
                self.status = ServerStatus::Down;
            }
        }
        self.last_check_ms = now_ms;
        self.status != old_status
    }
}

impl Default for HealthState {
    /// A fresh server is considered Up with zeroed counters.
    fn default() -> (r: HealthState)
        ensures
            r == HealthState::init(),
    {
        HealthState {
            status: ServerStatus::Up,
            last_check_ms: 0,
            consecutive_failures: 0,
            consecutive_successes: 0,
            last_success_ms: None,
            last_failure_ms: None,
        }
    }
}

/// The state after a whole sequence of probe outcomes, oldest first.
pub open spec fn after_probes(
    st: HealthState,
    results: Seq<bool>,
    rise: u32,
    fall: u32,
    now_ms: u64,
) -> HealthState
    decreases results.len(),
{
    if results.len() == 0 {
        st
    } else {
        after_probes(st, results.drop_last(), rise, fall, now_ms).after_probe(
            results.last(),
            rise,
            fall,
            now_ms,
        )
    }
}

/// A probe never moves a server into or out of Maintenance.
proof fn lemma_probe_keeps_non_maintenance(
    st: HealthState,
    results: Seq<bool>,
    rise: u32,
    fall: u32,
    now_ms: u64,
)
    requires
        !(st.status is Maintenance),
    ensures
        !(after_probes(st, results, rise, fall, now_ms).status is Maintenance),
    decreases results.len(),
{
    if results.len() > 0 {
        lemma_probe_keeps_non_maintenance(st, results.drop_last(), rise, fall, now_ms);
    }
}

/// Law: however a server not under maintenance arrived at its state, once the
/// last `fall` probes in a row have failed (with `fall >= 1`), its status is
/// Down.
pub proof fn lemma_fall_failures_bring_down(
    st: HealthState,
    results: Seq<bool>,
    rise: u32,
    fall: u32,
    now_ms: u64,
)
    requires
        !(st.status is Maintenance),
        1 <= fall,
        fall as int <= results.len(),
        forall|i: int| results.len() - fall <= i < results.len() ==> !(#[trigger] results[i]),
    ensures
        after_probes(st, results, rise, fall, now_ms).status is Down,
        after_probes(st, results, rise, fall, now_ms).consecutive_failures >= fall,
    decreases results.len(),
{
    let prev = after_probes(st, results.drop_last(), rise, fall, now_ms);
    lemma_probe_keeps_non_maintenance(st, results.drop_last(), rise, fall, now_ms);
    if fall == 1 {
    } else {
        lemma_fall_failures_bring_down(st, results.drop_last(), rise, (fall - 1) as u32, now_ms);
        let shorter = after_probes(st, results.drop_last(), rise, (fall - 1) as u32, now_ms);
        lemma_fall_threshold_irrelevant_for_counter(st, results.drop_last(), rise, fall, (fall - 1) as u32, now_ms);
    }
}

/// The failure counter does not depend on the `fall` threshold.
proof fn lemma_fall_threshold_irrelevant_for_counter(
    st: HealthState,
    results: Seq<bool>,
    rise: u32,
    fall1: u32,
    fall2: u32,
    now_ms: u64,
)
    ensures
        after_probes(st, results, rise, fall1, now_ms).consecutive_failures == after_probes(
            st,
            results,
            rise,
            fall2,
            now_ms,
        ).consecutive_failures,
        after_probes(st, results, rise, fall1, now_ms).consecutive_successes == after_probes(
            st,
            results,
            rise,
            fall2,
            now_ms,
        ).consecutive_successes,
    decreases results.len(),
{
    if results.len() > 0 {
        lemma_fall_threshold_irrelevant_for_counter(
            st,
            results.drop_last(),
            rise,
            fall1,
            fall2,
            now_ms,
        );
    }
}

/// Law: symmetrically, once the last `rise` probes in a row have succeeded
/// (with `rise >= 1`), a server not under maintenance is Up.
pub proof fn lemma_rise_successes_bring_up(
    st: HealthState,
    results: Seq<bool>,
    rise: u32,
    fall: u32,
    now_ms: u64,
)
    requires
        !(st.status is Maintenance),
        1 <= rise,
        rise as int <= results.len(),
        forall|i: int| results.len() - rise <= i < results.len() ==> #[trigger] results[i],
    ensures
        after_probes(st, results, rise, fall, now_ms).status is Up,
        after_probes(st, results, rise, fall, now_ms).consecutive_successes >= rise,
    decreases results.len(),
{
    let prev = after_probes(st, results.drop_last(), rise, fall, now_ms);
    lemma_probe_keeps_non_maintenance(st, results.drop_last(), rise, fall, now_ms);
    if rise == 1 {
    } else {
        lemma_rise_successes_bring_up(st, results.drop_last(), (rise - 1) as u32, fall, now_ms);
        lemma_rise_threshold_irrelevant_for_counter(st, results.drop_last(), rise, (rise - 1) as u32, fall, now_ms);
    }
}

/// The success counter does not depend on the `rise` threshold.
proof fn lemma_rise_threshold_irrelevant_for_counter(
    st: HealthState,
    results: Seq<bool>,
    rise1: u32,
    rise2: u32,
    fall: u32,
    now_ms: u64,
)
    ensures
        after_probes(st, results, rise1, fall, now_ms).consecutive_successes == after_probes(
            st,
            results,
            rise2,
            fall,
            now_ms,
        ).consecutive_successes,
        after_probes(st, results, rise1, fall, now_ms).consecutive_failures == after_probes(
            st,
            results,
            rise2,
            fall,
            now_ms,
        ).consecutive_failures,
    decreases results.len(),
{
    if results.len() > 0 {
        lemma_rise_threshold_irrelevant_for_counter(
            st,
            results.drop_last(),
            rise1,
            rise2,
            fall,
            now_ms,
        );
    }
}

/// Parse a duration written with an `ms`, `s`, `m` or `h` suffix; a bare
/// number counts as seconds. The result in milliseconds, if the text is a
/// valid number and the value fits in a `u64`.
pub open spec fn spec_scaled_number(num: Seq<u8>, mult: nat) -> Option<u64> {
    if scan::is_number(num) && scan::digits_val(num) <= u64::MAX && scan::digits_val(num) * mult
        <= u64::MAX {
        Some((scan::digits_val(num) * mult) as u64)
    } else {
        None
    }
}

pub open spec fn spec_duration_ms(s: Seq<u8>) -> Option<u64> {
    if s.len() >= 2 && s[s.len() - 2] == 109 && s[s.len() - 1] == 115 {
        spec_scaled_number(s.take(s.len() - 2), 1)
    } else if s.len() >= 1 && s[s.len() - 1] == 115 {
        spec_scaled_number(s.take(s.len() - 1), 1000)
    } else if s.len() >= 1 && s[s.len() - 1] == 109 {
        spec_scaled_number(s.take(s.len() - 1), 60000)
    } else if s.len() >= 1 && s[s.len() - 1] == 104 {
        spec_scaled_number(s.take(s.len() - 1), 3600000)
    } else {
        spec_scaled_number(s, 1000)
    }
}

/// Parse a duration such as `200ms`, `2s`, `1m` or `1h` into milliseconds.
pub fn parse_duration(s: &[u8]) -> (r: Option<u64>)
    ensures
        r == spec_duration_ms(s@),
{
    let n = s.len();
    if n >= 2 && s[n - 2] == 109 && s[n - 1] == 115 {
        let v = scan::parse_u64(vstd::slice::slice_subrange(s, 0, n - 2));
        proof {
            assert(s@.subrange(0, n - 2) =~= s@.take(n - 2));
        }
        v
    } else if n >= 1 && s[n - 1] == 115 {
        proof {
            assert(s@.subrange(0, n - 1) =~= s@.take(n - 1));
        }
        match scan::parse_u64(vstd::slice::slice_subrange(s, 0, n - 1)) {
            Some(v) => v.checked_mul(1000),
            None => None,
        }
    } else if n >= 1 && s[n - 1] == 109 {
        proof {
            assert(s@.subrange(0, n - 1) =~= s@.take(n - 1));
        }
        match scan::parse_u64(vstd::slice::slice_subrange(s, 0, n - 1)) {
            Some(v) => v.checked_mul(60000),
            None => None,
        }
    } else if n >= 1 && s[n - 1] == 104 {
        proof {
            assert(s@.subrange(0, n - 1) =~= s@.take(n - 1));
        }
        match scan::parse_u64(vstd::slice::slice_subrange(s, 0, n - 1)) {
            Some(v) => v.checked_mul(3600000),
            None => None,
        }
    } else {
        proof {
            assert(s@.take(s@.len() as int) =~= s@);
        }
        match scan::parse_u64(s) {
            Some(v) => v.checked_mul(1000),
            None => None,
        }
    }
}


/// The names of a backend's probed servers, in configuration order.
pub open spec fn spec_checked_names(ss: Seq<ServerV>) -> Seq<Seq<char>>
    decreases ss.len(),
{
    if ss.len() == 0 {
        Seq::empty()
    } else {
        spec_checked_names(ss.drop_last()) + if ss.last().check == Some(true) {
            seq![ss.last().name]
        } else {
            Seq::empty()
        }
    }
}

/// Index of the first tracked server with this name, or -1.
pub open spec fn spec_server_index(ss: Seq<(String, HealthState)>, name: Seq<char>) -> int
    decreases ss.len(),
{
    if ss.len() == 0 {
        -1
    } else if ss[0].0@ == name {
        0
    } else {
        let r = spec_server_index(ss.drop_first(), name);
        if r == -1 {
            -1
        } else {
            r + 1
        }
    }
}

proof fn lemma_server_index_at(ss: Seq<(String, HealthState)>, name: Seq<char>, i: int)
    requires
        0 <= i < ss.len(),
        ss[i].0@ == name,
        forall|j: int| 0 <= j < i ==> #[trigger] ss[j].0@ != name,
    ensures
        spec_server_index(ss, name) == i,
    decreases i,
{
    if i > 0 {
        assert forall|j: int| 0 <= j < i - 1 implies #[trigger] ss.drop_first()[j].0@ != name by {
            assert(ss.drop_first()[j] == ss[j + 1]);
        }
        assert(ss.drop_first()[i - 1] == ss[i as int]);
        lemma_server_index_at(ss.drop_first(), name, i - 1);
    }
}

proof fn lemma_server_index_none(ss: Seq<(String, HealthState)>, name: Seq<char>)
    requires
        forall|j: int| 0 <= j < ss.len() ==> #[trigger] ss[j].0@ != name,
    ensures
        spec_server_index(ss, name) == -1,
    decreases ss.len(),
{
    if ss.len() > 0 {
        assert forall|j: int|
            0 <= j < ss.drop_first().len() implies #[trigger] ss.drop_first()[j].0@ != name by {
            assert(ss.drop_first()[j] == ss[j + 1]);
        }
        lemma_server_index_none(ss.drop_first(), name);
    }
}

/// The probe supervisor's state for one backend: one `HealthState` per
/// probed server, with the backend's thresholds and timing. The probing
/// itself (opening sockets on a schedule) is done by the caller, which
/// reports each outcome to `record_probe_result` and reads snapshots here.
pub struct HealthChecker {
    backend_name: String,
    rise_threshold: u32,
    fall_threshold: u32,
    check_interval_ms: u64,
    check_timeout_ms: u64,
    servers: Vec<(String, HealthState)>,
}

impl HealthChecker {
    pub closed spec fn spec_servers(self) -> Seq<(String, HealthState)> {
        self.servers@
    }

    pub closed spec fn spec_rise(self) -> u32 {
        self.rise_threshold
    }

    pub closed spec fn spec_fall(self) -> u32 {
        self.fall_threshold
    }

    pub closed spec fn spec_interval_ms(self) -> u64 {
        self.check_interval_ms
    }

    pub closed spec fn spec_timeout_ms(self) -> u64 {
        self.check_timeout_ms
    }

    pub closed spec fn spec_backend_name(self) -> Seq<char> {
        self.backend_name@
    }

    /// Set up probing for a backend: thresholds and timing from its
    /// health-check settings (rise 2, fall 3, a 2 s interval and a 1 s
    /// probe timeout when unset or unreadable), one fresh state per server
    /// marked `check`.
    pub fn new(config: &BackendConfig) -> (r: Self)
        ensures
            r.spec_backend_name() == config.name@,
            r.spec_rise() == (match config@.health_check {
                Some(h) => h.rise,
                None => 2u32,
            }),
            r.spec_fall() == (match config@.health_check {
                Some(h) => h.fall,
                None => 3u32,
            }),
            r.spec_interval_ms() == (match config@.health_check {
                Some(h) => match spec_duration_ms(vstd::utf8::encode_utf8(h.interval)) {
                    Some(ms) => ms,
                    None => 2000u64,
                },
                None => 2000u64,
            }),
            r.spec_timeout_ms() == (match config@.health_check {
                Some(h) => match spec_duration_ms(vstd::utf8::encode_utf8(h.timeout)) {
                    Some(ms) => ms,
                    None => 1000u64,
                },
                None => 1000u64,
            }),
            r.spec_servers().len() == spec_checked_names(config@.server).len(),
            forall|i: int|
                0 <= i < r.spec_servers().len() ==> (#[trigger] r.spec_servers()[i]).0@
                    == spec_checked_names(config@.server)[i] && r.spec_servers()[i].1
                    == HealthState::init(),
    {
        let rise_threshold = match &config.health_check {
            Some(h) => h.rise,
            None => 2,
        };
        let fall_threshold = match &config.health_check {
            Some(h) => h.fall,
            None => 3,
        };
        let check_interval_ms = match &config.health_check {
            Some(h) => {
                let b = h.interval.as_str().as_bytes_vec();
                match parse_duration(b.as_slice()) {
                    Some(ms) => ms,
                    None => 2000,
                }
            },
            None => 2000,
        };
        let check_timeout_ms = match &config.health_check {
            Some(h) => {
                let b = h.timeout.as_str().as_bytes_vec();
                match parse_duration(b.as_slice()) {
                    Some(ms) => ms,
                    None => 1000,
                }
            },
            None => 1000,
        };
        let mut servers: Vec<(String, HealthState)> = Vec::new();
        let mut i: usize = 0;
        proof {
            assert(config@.server.take(0) =~= Seq::<ServerV>::empty());
        }
        while i < config.server.len()
            invariant
                i <= config@.server.len(),
                servers@.len() == spec_checked_names(config@.server.take(i as int)).len(),
                forall|k: int|
                    0 <= k < servers@.len() ==> (#[trigger] servers@[k]).0@ == spec_checked_names(
                        config@.server.take(i as int),
                    )[k] && servers@[k].1 == HealthState::init(),
            decreases config@.server.len() - i,
        {
            proof {
                assert(config@.server.take(i + 1).drop_last() =~= config@.server.take(i as int));
                assert(config@.server.take(i + 1).last() == config@.server[i as int]);
            }
            let sv = &config.server[i];
            proof {
                assert(sv@ == config@.server[i as int]);
            }
            let checked = match sv.check {
                Some(c) => c,
                None => false,
            };
            if checked {
                servers.push((crate::config::clone_string(&sv.name), HealthState::default()));
            }
            i += 1;
        }
        proof {
            assert(config@.server.take(i as int) =~= config@.server);
        }
        Self {
            backend_name: crate::config::clone_string(&config.name),
            rise_threshold,
            fall_threshold,
            check_interval_ms,
            check_timeout_ms,
            servers,
        }
    }

    pub fn servers_len(&self) -> (r: usize)
        ensures
            r == self.spec_servers().len(),
    {
        self.servers.len()
    }

    /// The name of the probed server at `i`.
    pub fn server_name(&self, i: usize) -> (r: String)
        requires
            i < self.spec_servers().len(),
        ensures
            r@ == self.spec_servers()[i as int].0@,
    {
        crate::config::clone_string(&self.servers[i].0)
    }

    /// Record one probe outcome for the server at `i`; returns whether its
    /// status changed.
    pub fn record_probe_result(&mut self, i: usize, success: bool, now_ms: u64) -> (changed: bool)
        requires
            i < old(self).spec_servers().len(),
        ensures
            final(self).spec_servers() == old(self).spec_servers().update(
                i as int,
                (
                    old(self).spec_servers()[i as int].0,
                    old(self).spec_servers()[i as int].1.after_probe(
                        success,
                        old(self).spec_rise(),
                        old(self).spec_fall(),
                        now_ms,
                    ),
                ),
            ),
            changed == (final(self).spec_servers()[i as int].1.status != old(
                self,
            ).spec_servers()[i as int].1.status),
            final(self).spec_rise() == old(self).spec_rise(),
            final(self).spec_fall() == old(self).spec_fall(),
            final(self).spec_interval_ms() == old(self).spec_interval_ms(),
            final(self).spec_timeout_ms() == old(self).spec_timeout_ms(),
            final(self).spec_backend_name() == old(self).spec_backend_name(),
    {
        let rise = self.rise_threshold;
        let fall = self.fall_threshold;
        let changed = self.servers[i].1.record_probe(success, rise, fall, now_ms);
        proof {
            assert(self.servers@ =~= old(self).spec_servers().update(
                i as int,
                (old(self).spec_servers()[i as int].0, self.servers@[i as int].1),
            ));
        }
        changed
    }

    /// The status of the named server, when it is probed here.
    pub fn get_server_status(&self, server_name: &str) -> (r: Option<ServerStatus>)
        ensures
            ({
                let i = spec_server_index(self.spec_servers(), server_name@);
                match r {
                    Some(st) => 0 <= i < self.spec_servers().len() && st
                        == self.spec_servers()[i].1.status,
                    None => i == -1,
                }
            }),
    {
        let mut i: usize = 0;
        while i < self.servers.len()
            invariant
                i <= self.servers@.len(),
                forall|j: int| 0 <= j < i ==> #[trigger] self.servers@[j].0@ != server_name@,
            decreases self.servers@.len() - i,
        {
            if scan::str_eq(self.servers[i].0.as_str(), server_name) {
                proof {
                    lemma_server_index_at(self.servers@, server_name@, i as int);
                }
                return Some(self.servers[i].1.status);
            }
            i += 1;
        }
        proof {
            lemma_server_index_none(self.servers@, server_name@);
        }
        None
    }

    /// Put the named server into or out of maintenance; leaving maintenance
    /// returns it to Up.
    pub fn set_server_maintenance(&mut self, server_name: &str, maintenance: bool)
        ensures
            final(self).spec_rise() == old(self).spec_rise(),
            final(self).spec_fall() == old(self).spec_fall(),
            ({
                let i = spec_server_index(old(self).spec_servers(), server_name@);
                if i == -1 {
                    *final(self) == *old(self)
                } else {
                    final(self).spec_servers() == old(self).spec_servers().update(
                        i,
                        (
                            old(self).spec_servers()[i].0,
                            HealthState {
                                status: if maintenance {
                                    ServerStatus::Maintenance
                                } else {
                                    ServerStatus::Up
                                },
                                ..old(self).spec_servers()[i].1
                            },
                        ),
                    )
                }
            }),
    {
        let ghost ss0 = self.servers@;
        let mut i: usize = 0;
        while i < self.servers.len()
            invariant
                i <= self.servers@.len(),
                *self == *old(self),
                ss0 == old(self).spec_servers(),
                forall|j: int| 0 <= j < i ==> #[trigger] ss0[j].0@ != server_name@,
            decreases self.servers@.len() - i,
        {
            if scan::str_eq(self.servers[i].0.as_str(), server_name) {
                proof {
                    lemma_server_index_at(ss0, server_name@, i as int);
                }
                self.servers[i].1.status = if maintenance {
                    ServerStatus::Maintenance
                } else {
                    ServerStatus::Up
                };
                proof {
                    assert(self.servers@ =~= ss0.update(
                        i as int,
                        (ss0[i as int].0, self.servers@[i as int].1),
                    ));
                }
                return ;
            }
            i += 1;
        }
        proof {
            lemma_server_index_none(ss0, server_name@);
        }
    }

    /// The names of the servers whose status is Up, in order.
    pub open spec fn spec_healthy_names(ss: Seq<(String, HealthState)>) -> Seq<Seq<char>>
        decreases ss.len(),
    {
        if ss.len() == 0 {
            Seq::empty()
        } else {
            Self::spec_healthy_names(ss.drop_last()) + if ss.last().1.status is Up {
                seq![ss.last().0@]
            } else {
                Seq::empty()
            }
        }
    }

    /// The names of the probed servers currently Up, in order.
    pub fn get_healthy_servers(&self) -> (r: Vec<String>)
        ensures
            crate::config::strs_view(r@) == Self::spec_healthy_names(self.spec_servers()),
    {
        let mut r: Vec<String> = Vec::new();
        let mut i: usize = 0;
        proof {
            assert(crate::config::strs_view(r@) =~= Self::spec_healthy_names(
                self.spec_servers().take(0),
            ));
        }
        while i < self.servers.len()
            invariant
                i <= self.servers@.len(),
                crate::config::strs_view(r@) == Self::spec_healthy_names(
                    self.spec_servers().take(i as int),
                ),
            decreases self.servers@.len() - i,
        {
            proof {
                assert(self.spec_servers().take(i + 1).drop_last() =~= self.spec_servers().take(
                    i as int,
                ));
                assert(self.spec_servers().take(i + 1).last() == self.spec_servers()[i as int]);
            }
            if matches!(self.servers[i].1.status, ServerStatus::Up) {
                let ghost before = crate::config::strs_view(r@);
                r.push(crate::config::clone_string(&self.servers[i].0));
                proof {
                    assert(crate::config::strs_view(r@) =~= before.push(
                        self.spec_servers()[i as int].0@,
                    ));
                }
            }
            i += 1;
        }
        proof {
            assert(self.spec_servers().take(i as int) =~= self.spec_servers());
        }
        r
    }

    /// The names of all probed servers, in order.
    pub fn get_all_servers(&self) -> (r: Vec<String>)
        ensures
            r@.len() == self.spec_servers().len(),
            forall|i: int|
                0 <= i < r@.len() ==> (#[trigger] r@[i])@ == self.spec_servers()[i].0@,
    {
        let mut r: Vec<String> = Vec::new();
        let mut i: usize = 0;
        while i < self.servers.len()
            invariant
                i <= self.servers@.len(),
                r@.len() == i,
                forall|j: int|
                    0 <= j < i ==> (#[trigger] r@[j])@ == self.spec_servers()[j].0@,
            decreases self.servers@.len() - i,
        {
            r.push(crate::config::clone_string(&self.servers[i].0));
            i += 1;
        }
        r
    }

    /// A snapshot of every probed server's status, in order: the whole
    /// backend's state at one moment, as the supervisor publishes it.
    pub fn get_all_server_statuses(&self) -> (r: Vec<(String, ServerStatus)>)
        ensures
            r@.len() == self.spec_servers().len(),
            forall|i: int|
                0 <= i < r@.len() ==> (#[trigger] r@[i]).0@ == self.spec_servers()[i].0@
                    && r@[i].1 == self.spec_servers()[i].1.status,
    {
        let mut r: Vec<(String, ServerStatus)> = Vec::new();
        let mut i: usize = 0;
        while i < self.servers.len()
            invariant
                i <= self.servers@.len(),
                r@.len() == i,
                forall|j: int|
                    0 <= j < i ==> (#[trigger] r@[j]).0@ == self.spec_servers()[j].0@ && r@[j].1
                        == self.spec_servers()[j].1.status,
            decreases self.servers@.len() - i,
        {
            r.push((crate::config::clone_string(&self.servers[i].0), self.servers[i].1.status));
            i += 1;
        }
        r
    }

    /// How long to sleep between probe cycles, in milliseconds.
    pub fn interval_ms(&self) -> (r: u64)
        ensures
            r == self.spec_interval_ms(),
    {
        self.check_interval_ms
    }

    /// The probe connect deadline, in milliseconds.
    pub fn timeout_ms(&self) -> (r: u64)
        ensures
            r == self.spec_timeout_ms(),
    {
        self.check_timeout_ms
    }
}

} // verus!
