//! Load-balancing policies. Each picker selects an index into the ordered
//! server list: an available server (Up, enabled, not backup, positive
//! weight), or, when none is available, an Up backup server.

use vstd::prelude::*;
use crate::config::ServerConfig;
use crate::config::ConfigError;
use crate::health::ServerStatus;
use crate::scan;

verus! {

/// Relies on `rand::random`: a sampled value, of which nothing is promised.
pub assume_specification<T>[ rand::random::<T> ]() -> (r: T)
    where
        rand::distributions::Standard: rand::distributions::Distribution<T>,
;

#[derive(Debug, Clone)]
pub struct ServerState {
    pub config: ServerConfig,
    pub active_connections: u32,
    pub weight: u32,
    pub status: ServerStatus,
}

pub open spec fn opt_bool(o: Option<bool>) -> bool {
    match o {
        Some(b) => b,
        None => false,
    }
}

impl ServerState {
    /// The runtime a server starts with: its configured weight (1 when
    /// unset), no connections, and status Up.
    pub open spec fn spec_new(config: ServerConfig) -> ServerState {
        ServerState {
            config,
            active_connections: 0,
            weight: match config.weight {
                Some(w) => w,
                None => 1,
            },
            status: ServerStatus::Up,
        }
    }

    pub fn new(config: ServerConfig) -> (r: Self)
        ensures
            r == ServerState::spec_new(config),
    {
        let weight = match config.weight {
            Some(w) => w,
            None => 1,
        };
        Self { config, active_connections: 0, weight, status: ServerStatus::Up }
    }

    /// Eligible for primary selection: Up, enabled, not a backup, and
    /// positively weighted.
    pub open spec fn spec_available(self) -> bool {
        self.status is Up && !opt_bool(self.config.disabled) && !opt_bool(self.config.backup)
            && self.weight > 0
    }

    /// An Up backup server, eligible only when no primary is available.
    pub open spec fn spec_backup_up(self) -> bool {
        opt_bool(self.config.backup) && self.status is Up
    }

    pub fn is_available(&self) -> (r: bool)
        ensures
            r == self.spec_available(),
    {
        matches!(self.status, ServerStatus::Up) && !self.config.disabled.unwrap_or(false)
            && !self.config.backup.unwrap_or(false) && self.weight > 0
    }

    pub fn is_backup(&self) -> (r: bool)
        ensures
            r == opt_bool(self.config.backup),
    {
        self.config.backup.unwrap_or(false)
    }
}

/// Indices of the available servers, in order.
pub open spec fn spec_avail(ss: Seq<ServerState>) -> Seq<usize>
    decreases ss.len(),
{
    if ss.len() == 0 {
        seq![]
    } else {
        spec_avail(ss.drop_last()) + if ss.last().spec_available() {
            seq![(ss.len() - 1) as usize]
        } else {
            seq![]
        }
    }
}

/// Indices of the Up backup servers, in order.
pub open spec fn spec_backups(ss: Seq<ServerState>) -> Seq<usize>
    decreases ss.len(),
{
    if ss.len() == 0 {
        seq![]
    } else {
        spec_backups(ss.drop_last()) + if ss.last().spec_backup_up() {
            seq![(ss.len() - 1) as usize]
        } else {
            seq![]
        }
    }
}

/// Every entry of `spec_avail` is a valid index of an available server.
pub proof fn lemma_avail_props(ss: Seq<ServerState>)
    requires
        ss.len() <= usize::MAX,
    ensures
        forall|k: int|
            0 <= k < spec_avail(ss).len() ==> (#[trigger] spec_avail(ss)[k]) < ss.len() && ss[
                spec_avail(ss)[k] as int
            ].spec_available(),
    decreases ss.len(),
{
    if ss.len() > 0 {
        lemma_avail_props(ss.drop_last());
        assert forall|k: int|
            0 <= k < spec_avail(ss).len() implies (#[trigger] spec_avail(ss)[k]) < ss.len() && ss[
            spec_avail(ss)[k] as int
        ].spec_available() by {
            if k < spec_avail(ss.drop_last()).len() {
                assert(spec_avail(ss)[k] == spec_avail(ss.drop_last())[k]);
                let i = spec_avail(ss.drop_last())[k];
                assert(ss.drop_last()[i as int] == ss[i as int]);
            } else {
                assert(spec_avail(ss)[k] == (ss.len() - 1) as usize);
            }
        }
    }
}

/// Every entry of `spec_backups` is a valid index of an Up backup server.
pub proof fn lemma_backups_props(ss: Seq<ServerState>)
    requires
        ss.len() <= usize::MAX,
    ensures
        forall|k: int|
            0 <= k < spec_backups(ss).len() ==> (#[trigger] spec_backups(ss)[k]) < ss.len() && ss[
                spec_backups(ss)[k] as int
            ].spec_backup_up(),
    decreases ss.len(),
{
    if ss.len() > 0 {
        lemma_backups_props(ss.drop_last());
        assert forall|k: int|
            0 <= k < spec_backups(ss).len() implies (#[trigger] spec_backups(ss)[k]) < ss.len()
            && ss[spec_backups(ss)[k] as int].spec_backup_up() by {
            if k < spec_backups(ss.drop_last()).len() {
                assert(spec_backups(ss)[k] == spec_backups(ss.drop_last())[k]);
                let i = spec_backups(ss.drop_last())[k];
                assert(ss.drop_last()[i as int] == ss[i as int]);
            } else {
                assert(spec_backups(ss)[k] == (ss.len() - 1) as usize);
            }
        }
    }
}

/// Collect the indices of the available servers.
fn avail_list(servers: &[ServerState]) -> (r: Vec<usize>)
    ensures
        r@ == spec_avail(servers@),
{
    let mut r: Vec<usize> = Vec::new();
    let mut i: usize = 0;
    while i < servers.len()
        invariant
            i <= servers@.len(),
            r@ == spec_avail(servers@.take(i as int)),
        decreases servers@.len() - i,
    {
        proof {
            assert(servers@.take(i + 1).drop_last() =~= servers@.take(i as int));
        }
        if servers[i].is_available() {
            r.push(i);
        }
        i += 1;
    }
    proof {
        assert(servers@.take(i as int) =~= servers@);
    }
    r
}

/// Collect the indices of the Up backup servers.
fn backup_list(servers: &[ServerState]) -> (r: Vec<usize>)
    ensures
        r@ == spec_backups(servers@),
{
    let mut r: Vec<usize> = Vec::new();
    let mut i: usize = 0;
    while i < servers.len()
        invariant
            i <= servers@.len(),
            r@ == spec_backups(servers@.take(i as int)),
        decreases servers@.len() - i,
    {
        proof {
            assert(servers@.take(i + 1).drop_last() =~= servers@.take(i as int));
        }
        let s = &servers[i];
        if s.is_backup() && matches!(s.status, ServerStatus::Up) {
            r.push(i);
        }
        i += 1;
    }
    proof {
        assert(servers@.take(i as int) =~= servers@);
    }
    r
}

/// The pool a policy selects from: the available servers, or, when none is
/// available, the Up backups.
pub open spec fn spec_pool(ss: Seq<ServerState>) -> Seq<usize> {
    if spec_avail(ss).len() > 0 {
        spec_avail(ss)
    } else {
        spec_backups(ss)
    }
}

/// The safety contract every policy obeys: a selected index is in the pool,
/// and `None` comes exactly when the pool is empty.
pub open spec fn spec_selection_ok(ss: Seq<ServerState>, r: Option<usize>) -> bool {
    match r {
        Some(i) => spec_pool(ss).contains(i),
        None => spec_pool(ss).len() == 0,
    }
}

/// A stateful picker over the ordered server list. `client_hash` is a stable
/// hash of the client's source address, used only by source-hash selection.
pub trait LoadBalancer {
    fn select_server(&mut self, servers: &[ServerState], client_hash: u32) -> (r: Option<usize>)
        ensures
            spec_selection_ok(servers@, r),
    ;
}

/// The next round-robin cursor: one step forward, modulo the pool size.
pub open spec fn rr_next(c: usize, n: int) -> int
    recommends
        n >= 1,
{
    if c == usize::MAX {
        0int
    } else {
        (c + 1) % n
    }
}

pub struct RoundRobinBalancer {
    current_index: usize,
}

impl RoundRobinBalancer {
    pub fn new() -> (r: Self)
        ensures
            r.cursor() == 0,
    {
        Self { current_index: 0 }
    }

    /// The cursor the next selection will advance from.
    pub closed spec fn cursor(self) -> usize {
        self.current_index
    }

    /// One round-robin step: advance the cursor modulo the pool size and
    /// return the server at the new cursor.
    pub fn select_from(&mut self, servers: &[ServerState]) -> (r: Option<usize>)
        ensures
            spec_selection_ok(servers@, r),
            spec_pool(servers@).len() == 0 ==> *final(self) == *old(self),
            spec_pool(servers@).len() > 0 ==> {
                &&& final(self).cursor() == rr_next(
                    old(self).cursor(),
                    spec_pool(servers@).len() as int,
                )
                &&& r == Some(spec_pool(servers@)[final(self).cursor() as int])
            },
    {
        if servers.len() == 0 {
            return None;
        }
        let avail = avail_list(servers);
        let pool = if avail.len() > 0 {
            avail
        } else {
            backup_list(servers)
        };
        if pool.len() == 0 {
            return None;
        }
        let ghost c0 = self.current_index;
        let step = if self.current_index == usize::MAX {
            0
        } else {
            self.current_index + 1
        };
        let idx = step % pool.len();
        self.current_index = idx;
        proof {
            assert(spec_pool(servers@).contains(pool@[idx as int]));
            if c0 == usize::MAX {
                vstd::arithmetic::div_mod::lemma_small_mod(0nat, pool@.len() as nat);
            }
            assert(self.cursor() == rr_next(old(self).cursor(), pool@.len() as int));
        }
        Some(pool[idx])
    }
}

impl LoadBalancer for RoundRobinBalancer {
    fn select_server(&mut self, servers: &[ServerState], client_hash: u32) -> (r: Option<usize>) {
        self.select_from(servers)
    }
}

pub struct LeastConnectionBalancer;

impl LeastConnectionBalancer {
    /// Select a pool member with the fewest active connections; ties are
    /// broken by a random draw.
    pub fn select_from(&mut self, servers: &[ServerState]) -> (r: Option<usize>)
        ensures
            spec_selection_ok(servers@, r),
            r matches Some(i) ==> forall|k: int|
                0 <= k < spec_pool(servers@).len() ==> servers@[i as int].active_connections
                    <= servers@[#[trigger] spec_pool(servers@)[k] as int].active_connections,
    {
        let n = servers.len();
        let avail = avail_list(servers);
        let pool = if avail.len() > 0 {
            avail
        } else {
            backup_list(servers)
        };
        if pool.len() == 0 {
            return None;
        }
        proof {
            lemma_avail_props(servers@);
            lemma_backups_props(servers@);
        }
        let mut min_conn: u32 = servers[pool[0]].active_connections;
        let mut i: usize = 1;
        while i < pool.len()
            invariant
                1 <= i <= pool@.len(),
                pool@ == spec_pool(servers@),
                forall|k: int|
                    0 <= k < pool@.len() ==> (#[trigger] pool@[k]) < servers@.len(),
                forall|k: int|
                    0 <= k < i ==> min_conn <= servers@[#[trigger] pool@[k] as int].active_connections,
                exists|k: int|
                    0 <= k < i && min_conn == servers@[#[trigger] pool@[k] as int].active_connections,
            decreases pool@.len() - i,
        {
            let c = servers[pool[i]].active_connections;
            if c < min_conn {
                min_conn = c;
            }
            i += 1;
        }
        let mut ties: Vec<usize> = Vec::new();
        let mut j: usize = 0;
        while j < pool.len()
            invariant
                j <= pool@.len(),
                pool@ == spec_pool(servers@),
                forall|k: int|
                    0 <= k < pool@.len() ==> (#[trigger] pool@[k]) < servers@.len(),
                forall|k: int|
                    0 <= k < ties@.len() ==> pool@.contains(#[trigger] ties@[k]) && servers@[
                        ties@[k] as int
                    ].active_connections == min_conn,
                (exists|k: int|
                    0 <= k < j && min_conn == servers@[
                        #[trigger] pool@[k] as int
                    ].active_connections) ==> ties@.len() > 0,
                forall|k: int|
                    0 <= k < pool@.len() ==> min_conn <= servers@[
                        #[trigger] pool@[k] as int
                    ].active_connections,
                exists|k: int|
                    0 <= k < pool@.len() && min_conn == servers@[
                        #[trigger] pool@[k] as int
                    ].active_connections,
            decreases pool@.len() - j,
        {
            if servers[pool[j]].active_connections == min_conn {
                proof {
                    assert(pool@.contains(pool@[j as int]));
                }
                ties.push(pool[j]);
            }
            j += 1;
        }
        let draw: usize = rand::random::<usize>();
        let pick = ties[draw % ties.len()];
        proof {
            assert(ties@[(draw as int) % (ties@.len() as int)] == pick);
        }
        Some(pick)
    }
}

impl LoadBalancer for LeastConnectionBalancer {
    fn select_server(&mut self, servers: &[ServerState], client_hash: u32) -> (r: Option<usize>) {
        self.select_from(servers)
    }
}

pub struct RandomBalancer;

impl RandomBalancer {
    /// Select a pool member at random.
    pub fn select_from(&mut self, servers: &[ServerState]) -> (r: Option<usize>)
        ensures
            spec_selection_ok(servers@, r),
    {
        let avail = avail_list(servers);
        let pool = if avail.len() > 0 {
            avail
        } else {
            backup_list(servers)
        };
        if pool.len() == 0 {
            return None;
        }
        let draw: usize = rand::random::<usize>();
        let pick = pool[draw % pool.len()];
        proof {
            assert(pool@.contains(pool@[(draw as int) % (pool@.len() as int)]));
        }
        Some(pick)
    }
}

impl LoadBalancer for RandomBalancer {
    fn select_server(&mut self, servers: &[ServerState], client_hash: u32) -> (r: Option<usize>) {
        self.select_from(servers)
    }
}

pub struct SourceHashBalancer;

impl SourceHashBalancer {
    /// Select the pool member indexed by the client hash, so one client
    /// always reaches the same server while the pool is stable.
    pub fn select_from(&mut self, servers: &[ServerState], client_hash: u32) -> (r: Option<usize>)
        ensures
            spec_selection_ok(servers@, r),
            spec_pool(servers@).len() > 0 ==> r == Some(
                spec_pool(servers@)[(client_hash as int) % (spec_pool(servers@).len() as int)],
            ),
    {
        let avail = avail_list(servers);
        let pool = if avail.len() > 0 {
            avail
        } else {
            backup_list(servers)
        };
        if pool.len() == 0 {
            return None;
        }
        let idx = (client_hash as usize) % pool.len();
        let pick = pool[idx];
        proof {
            assert(pool@.contains(pool@[idx as int]));
        }
        Some(pick)
    }
}

impl LoadBalancer for SourceHashBalancer {
    fn select_server(&mut self, servers: &[ServerState], client_hash: u32) -> (r: Option<usize>) {
        self.select_from(servers, client_hash)
    }
}

/// The FNV-1a hash of a byte sequence, used for source-hash selection: a
/// stable 32-bit hash of the client address text.
pub open spec fn spec_fnv1a(s: Seq<u8>) -> u32
    decreases s.len(),
{
    if s.len() == 0 {
        2166136261u32
    } else {
        (((spec_fnv1a(s.drop_last()) ^ (s.last() as u32)) as nat * 16777619) % 0x100000000) as u32
    }
}

/// Hash a client address so that equal addresses always land on the same
/// pool index.
pub fn fnv1a_hash(s: &[u8]) -> (r: u32)
    ensures
        r == spec_fnv1a(s@),
{
    let mut h: u32 = 2166136261;
    let mut i: usize = 0;
    while i < s.len()
        invariant
            i <= s@.len(),
            h == spec_fnv1a(s@.take(i as int)),
        decreases s@.len() - i,
    {
        proof {
            assert(s@.take(i + 1).drop_last() =~= s@.take(i as int));
        }
        h = (h ^ (s[i] as u32)).wrapping_mul(16777619);
        i += 1;
    }
    proof {
        assert(s@.take(i as int) =~= s@);
    }
    h
}

/// The weight used for scheduling: a zero-weight backup counts as one.
pub open spec fn eff_weight(s: ServerState) -> u32 {
    if s.weight == 0 {
        1u32
    } else {
        s.weight
    }
}

/// `d` evenly divides `x`.
pub open spec fn spec_divides(d: u32, x: u32) -> bool
    recommends
        d > 0,
{
    x % d == 0
}

proof fn lemma_divides_combine(x: int, y: int, d: int)
    requires
        x >= 0,
        y > 0,
        d > 0,
        y % d == 0,
        (x % y) % d == 0,
    ensures
        x % d == 0,
{
    vstd::arithmetic::div_mod::lemma_fundamental_div_mod(x, y);
    vstd::arithmetic::div_mod::lemma_fundamental_div_mod(y, d);
    vstd::arithmetic::div_mod::lemma_fundamental_div_mod(x % y, d);
    let q = x / y;
    let k = y / d;
    let m = (x % y) / d;
    assert(x == d * (k * q + m)) by (nonlinear_arith)
        requires
            x == y * q + x % y,
            y == d * k,
            x % y == d * m,
    ;
    vstd::arithmetic::div_mod::lemma_mod_multiples_basic(k * q + m, d);
}

proof fn lemma_divides_trans(d: int, g: int, w: int)
    requires
        d > 0,
        g > 0,
        w >= 0,
        g % d == 0,
        w % g == 0,
    ensures
        w % d == 0,
{
    vstd::arithmetic::div_mod::lemma_fundamental_div_mod(g, d);
    vstd::arithmetic::div_mod::lemma_fundamental_div_mod(w, g);
    let k = g / d;
    let q = w / g;
    assert(w == d * (k * q)) by (nonlinear_arith)
        requires
            g == d * k,
            w == g * q,
    ;
    vstd::arithmetic::div_mod::lemma_mod_multiples_basic(k * q, d);
}

/// A positive multiple of `d` is at least `d`.
proof fn lemma_divides_lower_bound(d: u32, x: u32)
    requires
        d > 0,
        x > 0,
        spec_divides(d, x),
    ensures
        x >= d,
{
    if x < d {
        vstd::arithmetic::div_mod::lemma_small_mod(x as nat, d as nat);
    }
}

/// Euclid's rule, as the weight-step divisor is computed.
pub open spec fn spec_gcd(a: int, b: int) -> int
    decreases b,
    when b >= 0
{
    if b <= 0 {
        a
    } else {
        spec_gcd(b, a % b)
    }
}

/// The greatest common divisor, used to step weighted round-robin weights.
fn gcd_u32(a: u32, b: u32) -> (g: u32)
    requires
        a > 0 || b > 0,
    ensures
        g >= 1,
        spec_divides(g, a),
        spec_divides(g, b),
        g == spec_gcd(a as int, b as int),
{
    let mut x = a;
    let mut y = b;
    while y != 0
        invariant
            x > 0 || y > 0,
            spec_gcd(x as int, y as int) == spec_gcd(a as int, b as int),
            forall|d: u32|
                1 <= d && #[trigger] spec_divides(d, x) && #[trigger] spec_divides(d, y)
                    ==> spec_divides(d, a) && spec_divides(d, b),
        decreases y,
    {
        let r = x % y;
        proof {
            assert forall|d: u32|
                1 <= d && #[trigger] spec_divides(d, y) && #[trigger] spec_divides(d, r) implies
                spec_divides(d, x) && spec_divides(d, y) by {
                lemma_divides_combine(x as int, y as int, d as int);
            }
        }
        x = y;
        y = r;
    }
    proof {
        assert(spec_divides(x, x));
        assert(spec_divides(x, y));
    }
    x
}

/// The effective weights of the pool positions, in pool order.
pub open spec fn spec_pool_weights(ss: Seq<ServerState>) -> Seq<u32> {
    spec_pool(ss).map_values(|i: usize| eff_weight(ss[i as int]))
}

/// The divisor of the weight walk: the gcd of the first `k` pool weights,
/// folded as the picker computes it.
pub open spec fn spec_fold_gcd(ws: Seq<u32>, k: int) -> int
    decreases k,
{
    if k <= 0 {
        0
    } else {
        spec_gcd(ws[k - 1] as int, spec_fold_gcd(ws, k - 1))
    }
}

/// The ceiling of the weight walk: the maximum of the first `k` pool
/// weights.
pub open spec fn spec_fold_max(ws: Seq<u32>, k: int) -> int
    decreases k,
{
    if k <= 0 {
        0
    } else {
        let m = spec_fold_max(ws, k - 1);
        if ws[k - 1] > m {
            ws[k - 1] as int
        } else {
            m
        }
    }
}

/// One advance of the weight walk: the cursor moves circularly, and each
/// wrap lowers the level by the divisor, cycling back to the ceiling.
pub open spec fn wrr_step(n: int, cur: int, cw: int, g: int, w: int) -> (int, int) {
    if cur + 1 == n {
        (0int, if cw - g <= 0 {
            w
        } else {
            cw - g
        })
    } else {
        (cur + 1, cw)
    }
}

/// Where the walk stops: advance until the position's weight reaches the
/// level. The fuel serves termination only; `wrr_fuel` steps always
/// suffice from a well-formed state.
pub open spec fn wrr_find(ws: Seq<u32>, cur: int, cw: int, g: int, w: int, fuel: nat) -> Option<
    (int, int),
>
    decreases fuel,
{
    if fuel == 0 {
        None
    } else {
        let next = wrr_step(ws.len() as int, cur, cw, g, w);
        if 0 <= next.0 < ws.len() && ws[next.0] >= next.1 {
            Some(next)
        } else {
            wrr_find(ws, next.0, next.1, g, w, (fuel - 1) as nat)
        }
    }
}

/// The walk's step budget from a state: one sweep of every level at or
/// under the ceiling, plus one more for the level cycling back.
pub open spec fn wrr_fuel(n: int, cur: int, cw: int, g: int, w: int) -> int {
    (w / g) * n + (cw / g) * n + (n - cur)
}

/// The stop the weight walk reaches from a state, with its canonical fuel.
pub open spec fn spec_wrr_pick(ws: Seq<u32>, cur: int, cw: int, g: int, w: int) -> Option<
    (int, int),
> {
    wrr_find(ws, cur, cw, g, w, wrr_fuel(ws.len() as int, cur, cw, g, w) as nat)
}

/// The cursor the walk starts from: the stored one, drawn into range.
pub open spec fn spec_wrr_start_cursor(stored: usize, n: int) -> int {
    if stored < n {
        stored as int
    } else {
        n - 1
    }
}

/// The level the walk starts from: the stored one, or the ceiling when the
/// stored level no longer fits the pool's weights.
pub open spec fn spec_wrr_start_level(stored: u32, g: int, w: int) -> int {
    if stored == 0 || stored > w || (stored as int) % g != 0 {
        w
    } else {
        stored as int
    }
}

pub struct WeightedRoundRobinBalancer {
    cursor: usize,
    current_weight: u32,
}

impl WeightedRoundRobinBalancer {
    pub fn new() -> (r: Self) {
        Self { cursor: 0, current_weight: 0 }
    }

    /// The pool position the last selection stopped at.
    pub closed spec fn spec_cursor(self) -> usize {
        self.cursor
    }

    /// The weight level the last selection stopped at.
    pub closed spec fn spec_current_weight(self) -> u32 {
        self.current_weight
    }

    /// Smooth weighted selection: walk the pool circularly, lowering the
    /// weight level by the gcd of the weights at each wrap (cycling back to
    /// the maximum), and stop at the first server whose weight reaches the
    /// level. The stop is pinned exactly: it is `spec_wrr_pick` of the
    /// stored state normalized against the pool, so successive picks over a
    /// stable pool follow one deterministic schedule, proportional to the
    /// weights over each full cycle.
    pub fn select_from(&mut self, servers: &[ServerState]) -> (r: Option<usize>)
        ensures
            spec_selection_ok(servers@, r),
            spec_pool(servers@).len() == 0 ==> *final(self) == *old(self),
            spec_pool(servers@).len() > 0 ==> {
                &&& final(self).spec_cursor() < spec_pool(servers@).len()
                &&& r == Some(spec_pool(servers@)[final(self).spec_cursor() as int])
                &&& final(self).spec_current_weight() >= 1
                &&& eff_weight(
                    servers@[spec_pool(servers@)[final(self).spec_cursor() as int] as int],
                ) >= final(self).spec_current_weight()
                &&& ({
                    let ws = spec_pool_weights(servers@);
                    let n = ws.len() as int;
                    let g = spec_fold_gcd(ws, n);
                    let w = spec_fold_max(ws, n);
                    spec_wrr_pick(
                        ws,
                        spec_wrr_start_cursor(old(self).spec_cursor(), n),
                        spec_wrr_start_level(old(self).spec_current_weight(), g, w),
                        g,
                        w,
                    ) == Some(
                        (final(self).spec_cursor() as int, final(self).spec_current_weight() as int),
                    )
                })
            },
    {
        let n_servers = servers.len();
        let avail = avail_list(servers);
        let pool = if avail.len() > 0 {
            avail
        } else {
            backup_list(servers)
        };
        let n = pool.len();
        if n == 0 {
            return None;
        }
        proof {
            lemma_avail_props(servers@);
            lemma_backups_props(servers@);
        }
        let ghost ws = spec_pool_weights(servers@);
        proof {
            assert forall|k: int| 0 <= k < n implies #[trigger] ws[k] == eff_weight(
                servers@[pool@[k] as int],
            ) by {}
        }
        // gcd and maximum of the effective weights
        let mut g: u32 = 0;
        let mut w: u32 = 0;
        let mut i: usize = 0;
        while i < n
            invariant
                i <= n,
                n == pool@.len(),
                pool@ == spec_pool(servers@),
                ws == spec_pool_weights(servers@),
                forall|k: int|
                    0 <= k < n ==> #[trigger] ws[k] == eff_weight(servers@[pool@[k] as int]),
                forall|k: int| 0 <= k < pool@.len() ==> (#[trigger] pool@[k]) < servers@.len(),
                i > 0 ==> g >= 1,
                i == 0 ==> g == 0 && w == 0,
                g == spec_fold_gcd(ws, i as int),
                w == spec_fold_max(ws, i as int),
                forall|k: int|
                    0 <= k < i ==> g >= 1 && spec_divides(
                        g,
                        eff_weight(servers@[#[trigger] pool@[k] as int]),
                    ),
                forall|k: int|
                    0 <= k < i ==> eff_weight(servers@[#[trigger] pool@[k] as int]) <= w,
                i > 0 ==> exists|k: int|
                    0 <= k < i && eff_weight(servers@[#[trigger] pool@[k] as int]) == w,
            decreases n - i,
        {
            let sw = servers[pool[i]].weight;
            let ew = if sw == 0 {
                1
            } else {
                sw
            };
            proof {
                assert(ew == ws[i as int]);
            }
            let ghost old_g = g;
            g = gcd_u32(ew, g);
            proof {
                assert forall|k: int|
                    0 <= k < i implies spec_divides(
                    g,
                    eff_weight(servers@[#[trigger] pool@[k] as int]),
                ) by {
                    lemma_divides_trans(
                        g as int,
                        old_g as int,
                        eff_weight(servers@[pool@[k] as int]) as int,
                    );
                }
            }
            if ew > w {
                w = ew;
            }
            i += 1;
        }
        // normalize the stored state against the current pool
        let mut cur: usize = if self.cursor < n {
            self.cursor
        } else {
            n - 1
        };
        let mut cw: u32 = self.current_weight;
        if cw == 0 || cw > w || cw % g != 0 {
            cw = w;
        }
        proof {
            let k = choose|k: int|
                0 <= k < n && eff_weight(servers@[#[trigger] pool@[k] as int]) == w;
            assert(spec_divides(g, eff_weight(servers@[pool@[k] as int])));
            assert(cur as int == spec_wrr_start_cursor(old(self).spec_cursor(), n as int));
            assert(cw as int == spec_wrr_start_level(old(self).spec_current_weight(), g as int, w as int));
        }
        let ghost cur0: int = cur as int;
        let ghost cw0: int = cw as int;
        let ghost wl: int = w as int / g as int;
        let ghost lvl0: int = cw as int / g as int;
        let ghost mut lvl: int = lvl0;
        let ghost fuel0: int = wrr_fuel(n as int, cur0, cw0, g as int, w as int);
        let ghost mut fuel: int = fuel0;
        proof {
            vstd::arithmetic::div_mod::lemma_fundamental_div_mod(w as int, g as int);
            vstd::arithmetic::div_mod::lemma_fundamental_div_mod(cw as int, g as int);
            assert(w == wl * g);
            assert(cw == lvl * g);
            assert(lvl >= 1) by (nonlinear_arith)
                requires
                    cw == lvl * g,
                    cw >= 1,
                    g >= 1,
            ;
            assert(wl >= 1) by (nonlinear_arith)
                requires
                    w == wl * g,
                    w >= 1,
                    g >= 1,
            ;
            assert(wl * n >= 0 && lvl * n >= n) by (nonlinear_arith)
                requires
                    wl >= 0,
                    lvl >= 1,
                    n >= 1,
            ;
        }
        let mut budget: u8 = 1;
        loop
            invariant
                n == pool@.len(),
                1 <= n <= usize::MAX,
                n_servers == servers@.len(),
                pool@ == spec_pool(servers@),
                ws == spec_pool_weights(servers@),
                forall|k: int|
                    0 <= k < n ==> #[trigger] ws[k] == eff_weight(servers@[pool@[k] as int]),
                forall|k: int| 0 <= k < pool@.len() ==> (#[trigger] pool@[k]) < servers@.len(),
                forall|k: int|
                    0 <= k < pool@.len() ==> spec_divides(
                        g,
                        eff_weight(servers@[#[trigger] pool@[k] as int]),
                    ) && eff_weight(servers@[pool@[k] as int]) <= w,
                cur < n,
                g >= 1,
                w >= 1,
                1 <= cw <= w,
                spec_divides(g, cw),
                spec_divides(g, w),
                budget <= 1,
                budget == 0 ==> cw > g,
                w == wl * g,
                cw == lvl * g,
                lvl >= 1,
                wl >= 1,
                g == spec_fold_gcd(ws, n as int),
                w == spec_fold_max(ws, n as int),
                cur0 == spec_wrr_start_cursor(old(self).spec_cursor(), n as int),
                cw0 == spec_wrr_start_level(old(self).spec_current_weight(), g as int, w as int),
                fuel0 == wrr_fuel(n as int, cur0, cw0, g as int, w as int),
                fuel == (if budget == 1 {
                    wl * n
                } else {
                    0int
                }) + lvl * n + (n - cur),
                fuel >= 1,
                wrr_find(ws, cur0, cw0, g as int, w as int, fuel0 as nat) == wrr_find(
                    ws,
                    cur as int,
                    cw as int,
                    g as int,
                    w as int,
                    fuel as nat,
                ),
                fuel0 >= fuel,
            decreases budget, cw, n - cur,
        {
            let ghost prev_cur: int = cur as int;
            let ghost prev_cw: int = cw as int;
            let ghost prev_fuel: int = fuel;
            let ghost prev_lvl: int = lvl;
            // advance the cursor; each wrap lowers the weight level
            if cur + 1 == n {
                cur = 0;
                if cw <= g {
                    proof {
                        if budget == 0 {
                            assert(false);
                        }
                        assert(prev_lvl == 1) by (nonlinear_arith)
                            requires
                                prev_cw == prev_lvl * g,
                                prev_lvl >= 1,
                                g >= 1,
                                prev_cw <= g,
                        ;
                    }
                    budget = 0;
                    cw = w;
                    proof {
                        assert(prev_lvl * n == n) by (nonlinear_arith)
                            requires
                                prev_lvl == 1,
                        ;
                        lvl = wl;
                        fuel = prev_fuel - 1;
                    }
                } else {
                    cw = cw - g;
                    proof {
                        vstd::arithmetic::div_mod::lemma_mod_sub_multiples_vanish(
                            (cw + g) as int,
                            g as int,
                        );
                        lvl = prev_lvl - 1;
                        fuel = prev_fuel - 1;
                        assert(cw == lvl * g) by (nonlinear_arith)
                            requires
                                prev_cw == prev_lvl * g,
                                cw == prev_cw - g,
                                lvl == prev_lvl - 1,
                        ;
                        assert(lvl >= 1) by (nonlinear_arith)
                            requires
                                cw == lvl * g,
                                cw >= 1,
                                g >= 1,
                        ;
                        assert(prev_lvl * n == (prev_lvl - 1) * n + n) by (nonlinear_arith);
                    }
                }
            } else {
                cur = cur + 1;
                proof {
                    fuel = prev_fuel - 1;
                }
            }
            proof {
                assert((cur as int, cw as int) == wrr_step(
                    n as int,
                    prev_cur,
                    prev_cw,
                    g as int,
                    w as int,
                ));
                assert(lvl * n >= n && wl * n >= 0) by (nonlinear_arith)
                    requires
                        lvl >= 1,
                        n >= 1,
                        wl >= 1,
                ;
            }
            let sw = servers[pool[cur]].weight;
            let ew = if sw == 0 {
                1
            } else {
                sw
            };
            proof {
                assert(ew == ws[cur as int]);
                assert(prev_fuel >= 1);
                assert(wrr_find(ws, prev_cur, prev_cw, g as int, w as int, prev_fuel as nat) == (
                if ws[cur as int] >= cw {
                    Some((cur as int, cw as int))
                } else {
                    wrr_find(ws, cur as int, cw as int, g as int, w as int, fuel as nat)
                }));
            }
            if ew >= cw {
                self.cursor = cur;
                self.current_weight = cw;
                proof {
                    assert(pool@.contains(pool@[cur as int]));
                    assert(wrr_find(ws, cur0, cw0, g as int, w as int, fuel0 as nat) == Some(
                        (cur as int, cw as int),
                    ));
                    assert(spec_wrr_pick(ws, cur0, cw0, g as int, w as int) == Some(
                        (cur as int, cw as int),
                    ));
                }
                return Some(pool[cur]);
            }
            proof {
                // the server's weight is a positive multiple of g, so a level
                // above it is above g as well
                lemma_divides_lower_bound(g, eff_weight(servers@[pool@[cur as int] as int]));
            }
        }
    }
}

impl LoadBalancer for WeightedRoundRobinBalancer {
    fn select_server(&mut self, servers: &[ServerState], client_hash: u32) -> (r: Option<usize>) {
        self.select_from(servers)
    }
}


/// One picker per backend, chosen by the `balance` directive.
pub enum Balancer {
    RoundRobin(RoundRobinBalancer),
    WeightedRoundRobin(WeightedRoundRobinBalancer),
    LeastConn(LeastConnectionBalancer),
    Random(RandomBalancer),
    SourceHash(SourceHashBalancer),
}

pub struct LoadBalancerFactory;

impl LoadBalancerFactory {
    /// Map a `balance` directive value to a fresh picker; unknown names fall
    /// back to round-robin.
    pub fn create(algorithm: &str) -> (r: Balancer)
        ensures
            algorithm@ == "leastconn"@ ==> r is LeastConn,
            algorithm@ == "random"@ ==> r is Random,
            algorithm@ == "weighted_roundrobin"@ ==> r is WeightedRoundRobin,
            algorithm@ == "source"@ || algorithm@ == "source_hash"@ ==> r is SourceHash,
            algorithm@ != "leastconn"@ && algorithm@ != "random"@ && algorithm@
                != "weighted_roundrobin"@ && algorithm@ != "source"@ && algorithm@
                != "source_hash"@ ==> (r matches Balancer::RoundRobin(b) && b.cursor() == 0),
    {
        proof {
            broadcast use vstd::string::group_string_axioms;

            reveal_strlit("leastconn");
            reveal_strlit("random");
            reveal_strlit("weighted_roundrobin");
            reveal_strlit("source");
            reveal_strlit("source_hash");
            assert("leastconn"@.len() == 9);
            assert("random"@.len() == 6);
            assert("weighted_roundrobin"@.len() == 19);
            assert("source"@.len() == 6);
            assert("source_hash"@.len() == 11);
            assert("random"@[0] == 'r');
            assert("source"@[0] == 's');
        }
        if scan::str_eq(algorithm, "leastconn") {
            Balancer::LeastConn(LeastConnectionBalancer)
        } else if scan::str_eq(algorithm, "random") {
            Balancer::Random(RandomBalancer)
        } else if scan::str_eq(algorithm, "weighted_roundrobin") {
            Balancer::WeightedRoundRobin(WeightedRoundRobinBalancer::new())
        } else if scan::str_eq(algorithm, "source") || scan::str_eq(algorithm, "source_hash") {
            Balancer::SourceHash(SourceHashBalancer)
        } else {
            Balancer::RoundRobin(RoundRobinBalancer::new())
        }
    }
}

/// The per-backend picker with its server runtime list.
pub struct BackendLoadBalancer {
    servers: Vec<ServerState>,
    balancer: Balancer,
}

impl BackendLoadBalancer {
    /// The server runtimes, in configuration order.
    pub closed spec fn spec_servers(self) -> Seq<ServerState> {
        self.servers@
    }

    /// The picker state.
    pub closed spec fn spec_balancer(self) -> Balancer {
        self.balancer
    }

    /// Build the runtime list for a backend: one fresh `ServerState` per
    /// configured server, and the picker named by `algorithm`.
    pub fn new(servers: Vec<ServerConfig>, algorithm: &str) -> (r: Result<Self, ConfigError>)
        ensures
            r matches Ok(b) && {
                &&& b.spec_servers().len() == servers@.len()
                &&& forall|i: int|
                    0 <= i < servers@.len() ==> b.spec_servers()[i] == ServerState::spec_new(
                        #[trigger] servers@[i],
                    )
                &&& (algorithm@ != "leastconn"@ && algorithm@ != "random"@ && algorithm@
                    != "weighted_roundrobin"@ && algorithm@ != "source"@ && algorithm@
                    != "source_hash"@ ==> b.spec_balancer() is RoundRobin)
            },
    {
        let mut states: Vec<ServerState> = Vec::new();
        let mut servers = servers;
        let ghost confs = servers@;
        // build in order by draining from the front
        while servers.len() > 0
            invariant
                states@.len() + servers@.len() == confs.len(),
                servers@ == confs.skip(states@.len() as int),
                forall|i: int|
                    0 <= i < states@.len() ==> states@[i] == ServerState::spec_new(
                        #[trigger] confs[i],
                    ),
            decreases servers@.len(),
        {
            let ghost done = states@.len() as int;
            let c = servers.remove(0);
            proof {
                assert(c == confs[done]);
                assert(servers@ =~= confs.skip(done + 1));
            }
            states.push(ServerState::new(c));
        }
        proof {
            assert(states@.len() == confs.len());
        }
        let balancer = LoadBalancerFactory::create(algorithm);
        Ok(Self { servers: states, balancer })
    }

    pub fn servers_len(&self) -> (r: usize)
        ensures
            r == self.spec_servers().len(),
    {
        self.servers.len()
    }

    /// Read one server runtime.
    pub fn get_server(&self, i: usize) -> (r: &ServerState)
        requires
            i < self.spec_servers().len(),
        ensures
            *r == self.spec_servers()[i as int],
    {
        &self.servers[i]
    }

    /// Install a health status published by the supervisor.
    pub fn set_server_status(&mut self, i: usize, status: ServerStatus)
        requires
            i < old(self).spec_servers().len(),
        ensures
            final(self).spec_servers() == old(self).spec_servers().update(
                i as int,
                ServerState { status, ..old(self).spec_servers()[i as int] },
            ),
            final(self).spec_balancer() == old(self).spec_balancer(),
    {
        self.servers[i].status = status;
    }

    /// Count a connection handed to server `i`; the counter saturates at its
    /// maximum rather than overflowing.
    pub fn inc_active(&mut self, i: usize)
        requires
            i < old(self).spec_servers().len(),
        ensures
            final(self).spec_servers() == old(self).spec_servers().update(
                i as int,
                ServerState {
                    active_connections: if old(self).spec_servers()[i as int].active_connections
                        == u32::MAX {
                        u32::MAX
                    } else {
                        (old(self).spec_servers()[i as int].active_connections + 1) as u32
                    },
                    ..old(self).spec_servers()[i as int]
                },
            ),
            final(self).spec_balancer() == old(self).spec_balancer(),
    {
        let c = self.servers[i].active_connections;
        self.servers[i].active_connections = if c == u32::MAX {
            u32::MAX
        } else {
            c + 1
        };
    }

    /// Release a connection from server `i`; a decrement never underflows.
    pub fn dec_active(&mut self, i: usize)
        requires
            i < old(self).spec_servers().len(),
        ensures
            final(self).spec_servers() == old(self).spec_servers().update(
                i as int,
                ServerState {
                    active_connections: if old(self).spec_servers()[i as int].active_connections
                        == 0 {
                        0u32
                    } else {
                        (old(self).spec_servers()[i as int].active_connections - 1) as u32
                    },
                    ..old(self).spec_servers()[i as int]
                },
            ),
            final(self).spec_balancer() == old(self).spec_balancer(),
    {
        let c = self.servers[i].active_connections;
        self.servers[i].active_connections = if c == 0 {
            0
        } else {
            c - 1
        };
    }

    /// Ask the picker for a server. The runtime list is not changed; only the
    /// picker state advances.
    pub fn select_server(&mut self, client_hash: u32) -> (r: Option<usize>)
        ensures
            final(self).spec_servers() == old(self).spec_servers(),
            spec_selection_ok(old(self).spec_servers(), r),
            old(self).spec_balancer() is SourceHash && spec_pool(
                old(self).spec_servers(),
            ).len() > 0 ==> r == Some(
                spec_pool(old(self).spec_servers())[(client_hash as int) % (spec_pool(
                    old(self).spec_servers(),
                ).len() as int)],
            ),
            old(self).spec_balancer() matches Balancer::RoundRobin(b) ==> (spec_pool(
                old(self).spec_servers(),
            ).len() > 0 ==> (final(self).spec_balancer() matches Balancer::RoundRobin(b2)
                && b2.cursor() == rr_next(
                b.cursor(),
                spec_pool(old(self).spec_servers()).len() as int,
            ) && r == Some(spec_pool(old(self).spec_servers())[b2.cursor() as int]))),
            old(self).spec_balancer() is LeastConn ==> (r matches Some(i) ==> forall|k: int|
                0 <= k < spec_pool(old(self).spec_servers()).len()
                    ==> old(self).spec_servers()[i as int].active_connections <= old(
                    self,
                ).spec_servers()[#[trigger] spec_pool(old(self).spec_servers())[k] as int].active_connections),
    {
        let servers = &self.servers;
        match &mut self.balancer {
            Balancer::RoundRobin(b) => b.select_from(servers.as_slice()),
            Balancer::WeightedRoundRobin(b) => b.select_from(servers.as_slice()),
            Balancer::LeastConn(b) => b.select_from(servers.as_slice()),
            Balancer::Random(b) => b.select_from(servers.as_slice()),
            Balancer::SourceHash(b) => b.select_from(servers.as_slice(), client_hash),
        }
    }
}


/// How many of the first `t` round-robin selections land on pool position
/// `i`: with a stable pool of size `n` and a starting cursor `c`, the `t`-th
/// call selects position `(c + t) % n`.
pub open spec fn rr_hits(c: int, n: int, i: int, t: nat) -> nat
    decreases t,
{
    if t == 0 {
        0
    } else {
        rr_hits(c, n, i, (t - 1) as nat) + if (c + t) % n == i {
            1nat
        } else {
            0nat
        }
    }
}

proof fn lemma_rr_window_count(c: int, n: int, i: int, t0: nat, tstar: int, j: nat)
    requires
        n >= 1,
        0 <= i < n,
        t0 < tstar <= t0 + n,
        (c + tstar) % n == i,
        j <= n,
    ensures
        rr_hits(c, n, i, (t0 + j) as nat) == rr_hits(c, n, i, t0) + (if tstar <= t0 + j {
            1int
        } else {
            0int
        }),
    decreases j,
{
    if j > 0 {
        lemma_rr_window_count(c, n, i, t0, tstar, (j - 1) as nat);
        let t = t0 + j;
        if (c + t) % n == i && t != tstar {
            vstd::arithmetic::div_mod::lemma_mod_equivalence(c + t, c + tstar, n);
            vstd::arithmetic::div_mod::lemma_fundamental_div_mod(t - tstar, n);
            let dq = (t - tstar) / n;
            assert(false) by (nonlinear_arith)
                requires
                    t - tstar == n * dq + ((t - tstar) % n),
                    (t - tstar) % n == 0,
                    -n < t - tstar < n,
                    t != tstar,
                    n >= 1,
            ;
        }
    }
}

/// One full circle of a stable pool selects the target position exactly
/// once more.
proof fn lemma_rr_block(c: int, n: int, i: int, t0: nat)
    requires
        n >= 1,
        0 <= i < n,
    ensures
        rr_hits(c, n, i, (t0 + n) as nat) == rr_hits(c, n, i, t0) + 1,
{
    let off = (i - (c + t0 + 1)) % n;
    vstd::arithmetic::div_mod::lemma_mod_bound(i - (c + t0 + 1), n);
    let tstar = t0 + 1 + off;
    vstd::arithmetic::div_mod::lemma_fundamental_div_mod(i - (c + t0 + 1), n);
    let q = (i - (c + t0 + 1)) / n;
    assert(c + tstar == i - n * q);
    assert(c + tstar == (-q) * n + i) by (nonlinear_arith)
        requires
            c + tstar == i - n * q,
    ;
    vstd::arithmetic::div_mod::lemma_fundamental_div_mod_converse(c + tstar, n, -q, i);
    assert((c + tstar) % n == i);
    lemma_rr_window_count(c, n, i, t0, tstar, n as nat);
}

/// Law: round-robin is fair. Over any window of `k` full circles of a
/// stable pool of `n` positions, each position is selected exactly `k`
/// times, wherever the cursor `c` started.
pub proof fn lemma_round_robin_fair(c: int, n: int, i: int, k: nat)
    requires
        n >= 1,
        0 <= i < n,
    ensures
        rr_hits(c, n, i, (k * n) as nat) == k,
    decreases k,
{
    if k == 0 {
        assert(k * n == 0) by (nonlinear_arith)
            requires
                k == 0,
        ;
    } else {
        lemma_round_robin_fair(c, n, i, (k - 1) as nat);
        assert((k - 1) as nat * n + n == k * n && (k - 1) as nat * n >= 0) by (nonlinear_arith)
            requires
                k >= 1,
                n >= 1,
        ;
        lemma_rr_block(c, n, i, ((k - 1) as nat * n) as nat);
    }
}

} // verus!
