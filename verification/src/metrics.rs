//! The metrics registry and its Prometheus text rendering. Counters only
//! grow; gauges move both ways and are clamped at zero rather than going
//! negative. The HTTP endpoint that serves the rendered text lives in the
//! surrounding application.

use vstd::prelude::*;
use vstd::string::StrSliceExecFns;
use vstd::string::StringSliceAdditionalSpecFns;
use vstd::string::StringExecFns;
use crate::scan;

verus! {

/// One time series: a metric name, its label pairs, and its value.
#[derive(Debug, Clone)]
pub struct MetricEntry {
    pub name: String,
    pub labels: Vec<(String, String)>,
    pub value: u64,
}

pub ghost struct MetricEntryV {
    pub name: Seq<char>,
    pub labels: Seq<(Seq<char>, Seq<char>)>,
    pub value: u64,
}

impl View for MetricEntry {
    type V = MetricEntryV;

    open spec fn view(&self) -> MetricEntryV {
        MetricEntryV {
            name: self.name@,
            labels: crate::config::pairs_view(self.labels@),
            value: self.value,
        }
    }
}

/// The registry: every series recorded so far, in first-use order.
pub struct Metrics {
    entries: Vec<MetricEntry>,
}

pub open spec fn entries_view(v: Seq<MetricEntry>) -> Seq<MetricEntryV> {
    v.map_values(|e: MetricEntry| e@)
}

/// Index of the series with this name and labels, or -1.
pub open spec fn spec_series_index(
    es: Seq<MetricEntryV>,
    name: Seq<char>,
    labels: Seq<(Seq<char>, Seq<char>)>,
) -> int
    decreases es.len(),
{
    if es.len() == 0 {
        -1
    } else if es[0].name == name && es[0].labels == labels {
        0
    } else {
        let r = spec_series_index(es.drop_first(), name, labels);
        if r == -1 {
            -1
        } else {
            r + 1
        }
    }
}

/// The registry after adding `delta` to a series (a fresh series starts at
/// zero first). The addition saturates rather than wrapping.
pub open spec fn spec_bumped(
    es: Seq<MetricEntryV>,
    name: Seq<char>,
    labels: Seq<(Seq<char>, Seq<char>)>,
    delta: u64,
) -> Seq<MetricEntryV> {
    let i = spec_series_index(es, name, labels);
    if i == -1 {
        es.push(MetricEntryV { name, labels, value: delta })
    } else {
        es.update(
            i,
            MetricEntryV {
                value: if es[i].value + delta <= u64::MAX {
                    (es[i].value + delta) as u64
                } else {
                    u64::MAX
                },
                ..es[i]
            },
        )
    }
}

/// The registry after lowering a series by `delta`, clamped at zero; a
/// series never seen stays unrecorded.
pub open spec fn spec_lowered(
    es: Seq<MetricEntryV>,
    name: Seq<char>,
    labels: Seq<(Seq<char>, Seq<char>)>,
    delta: u64,
) -> Seq<MetricEntryV> {
    let i = spec_series_index(es, name, labels);
    if i == -1 {
        es
    } else {
        es.update(
            i,
            MetricEntryV {
                value: if es[i].value >= delta {
                    (es[i].value - delta) as u64
                } else {
                    0u64
                },
                ..es[i]
            },
        )
    }
}

proof fn lemma_series_index_at(
    es: Seq<MetricEntryV>,
    name: Seq<char>,
    labels: Seq<(Seq<char>, Seq<char>)>,
    i: int,
)
    requires
        0 <= i < es.len(),
        es[i].name == name && es[i].labels == labels,
        forall|j: int| 0 <= j < i ==> !((#[trigger] es[j]).name == name && es[j].labels == labels),
    ensures
        spec_series_index(es, name, labels) == i,
    decreases i,
{
    if i > 0 {
        assert forall|j: int|
            0 <= j < i - 1 implies !((#[trigger] es.drop_first()[j]).name == name
            && es.drop_first()[j].labels == labels) by {
            assert(es.drop_first()[j] == es[j + 1]);
        }
        assert(es.drop_first()[i - 1] == es[i as int]);
        lemma_series_index_at(es.drop_first(), name, labels, i - 1);
    }
}

proof fn lemma_series_index_none(
    es: Seq<MetricEntryV>,
    name: Seq<char>,
    labels: Seq<(Seq<char>, Seq<char>)>,
)
    requires
        forall|j: int|
            0 <= j < es.len() ==> !((#[trigger] es[j]).name == name && es[j].labels == labels),
    ensures
        spec_series_index(es, name, labels) == -1,
    decreases es.len(),
{
    if es.len() > 0 {
        assert forall|j: int|
            0 <= j < es.drop_first().len() implies !((#[trigger] es.drop_first()[j]).name == name
            && es.drop_first()[j].labels == labels) by {
            assert(es.drop_first()[j] == es[j + 1]);
        }
        lemma_series_index_none(es.drop_first(), name, labels);
    }
}

/// Whether two label lists are the same pairs in the same order.
fn labels_eq(a: &Vec<(String, String)>, b: &Vec<(String, String)>) -> (r: bool)
    ensures
        r == (crate::config::pairs_view(a@) == crate::config::pairs_view(b@)),
{
    if a.len() != b.len() {
        proof {
            assert(crate::config::pairs_view(a@).len() != crate::config::pairs_view(b@).len());
        }
        return false;
    }
    let mut i: usize = 0;
    while i < a.len()
        invariant
            i <= a@.len(),
            a@.len() == b@.len(),
            forall|j: int|
                0 <= j < i ==> crate::config::pairs_view(a@)[j] == crate::config::pairs_view(
                    b@,
                )[j],
        decreases a@.len() - i,
    {
        if !scan::str_eq(a[i].0.as_str(), b[i].0.as_str()) || !scan::str_eq(
            a[i].1.as_str(),
            b[i].1.as_str(),
        ) {
            proof {
                assert(crate::config::pairs_view(a@)[i as int] != crate::config::pairs_view(
                    b@,
                )[i as int]);
            }
            return false;
        }
        i += 1;
    }
    proof {
        assert(crate::config::pairs_view(a@) =~= crate::config::pairs_view(b@));
    }
    true
}

impl Metrics {
    pub closed spec fn spec_entries(self) -> Seq<MetricEntryV> {
        entries_view(self.entries@)
    }

    pub fn new() -> (r: Self)
        ensures
            r.spec_entries() == Seq::<MetricEntryV>::empty(),
    {
        let r = Self { entries: Vec::new() };
        proof {
            assert(entries_view(r.entries@) =~= Seq::<MetricEntryV>::empty());
        }
        r
    }

    /// Add `delta` to a series, creating it at zero first.
    pub fn bump(&mut self, name: String, labels: Vec<(String, String)>, delta: u64)
        ensures
            final(self).spec_entries() == spec_bumped(
                old(self).spec_entries(),
                name@,
                crate::config::pairs_view(labels@),
                delta,
            ),
    {
        let ghost es0 = entries_view(self.entries@);
        let ghost lv = crate::config::pairs_view(labels@);
        let mut i: usize = 0;
        while i < self.entries.len()
            invariant
                i <= self.entries@.len(),
                entries_view(self.entries@) == es0,
                es0 == old(self).spec_entries(),
                lv == crate::config::pairs_view(labels@),
                forall|j: int|
                    0 <= j < i ==> !((#[trigger] es0[j]).name == name@ && es0[j].labels == lv),
            decreases self.entries@.len() - i,
        {
            proof {
                assert(self.entries@[i as int]@ == es0[i as int]);
            }
            if scan::str_eq(self.entries[i].name.as_str(), name.as_str()) && labels_eq(
                &self.entries[i].labels,
                &labels,
            ) {
                proof {
                    lemma_series_index_at(es0, name@, lv, i as int);
                }
                let v = self.entries[i].value;
                let nv = match v.checked_add(delta) {
                    Some(x) => x,
                    None => u64::MAX,
                };
                self.entries[i].value = nv;
                proof {
                    assert(entries_view(self.entries@) =~= es0.update(
                        i as int,
                        MetricEntryV { value: nv, ..es0[i as int] },
                    ));
                    assert(entries_view(self.entries@) == spec_bumped(es0, name@, lv, delta));
                }
                return ;
            }
            i += 1;
        }
        proof {
            lemma_series_index_none(es0, name@, lv);
        }
        let ghost name_v = name@;
        self.entries.push(MetricEntry { name, labels, value: delta });
        proof {
            assert(entries_view(self.entries@) =~= es0.push(
                MetricEntryV { name: name_v, labels: lv, value: delta },
            ));
        }
    }

    /// Lower a series by `delta`, clamped at zero; an unknown series stays
    /// unrecorded.
    pub fn lower(&mut self, name: String, labels: Vec<(String, String)>, delta: u64)
        ensures
            final(self).spec_entries() == spec_lowered(
                old(self).spec_entries(),
                name@,
                crate::config::pairs_view(labels@),
                delta,
            ),
    {
        let ghost es0 = entries_view(self.entries@);
        let ghost lv = crate::config::pairs_view(labels@);
        let mut i: usize = 0;
        while i < self.entries.len()
            invariant
                i <= self.entries@.len(),
                entries_view(self.entries@) == es0,
                es0 == old(self).spec_entries(),
                lv == crate::config::pairs_view(labels@),
                forall|j: int|
                    0 <= j < i ==> !((#[trigger] es0[j]).name == name@ && es0[j].labels == lv),
            decreases self.entries@.len() - i,
        {
            proof {
                assert(self.entries@[i as int]@ == es0[i as int]);
            }
            if scan::str_eq(self.entries[i].name.as_str(), name.as_str()) && labels_eq(
                &self.entries[i].labels,
                &labels,
            ) {
                proof {
                    lemma_series_index_at(es0, name@, lv, i as int);
                }
                let v = self.entries[i].value;
                let nv = if v >= delta {
                    v - delta
                } else {
                    0
                };
                self.entries[i].value = nv;
                proof {
                    assert(entries_view(self.entries@) =~= es0.update(
                        i as int,
                        MetricEntryV { value: nv, ..es0[i as int] },
                    ));
                    assert(entries_view(self.entries@) == spec_lowered(es0, name@, lv, delta));
                }
                return ;
            }
            i += 1;
        }
        proof {
            lemma_series_index_none(es0, name@, lv);
        }
    }

    /// The value of a series, zero when never recorded.
    pub fn value_of(&self, name: &str, labels: &Vec<(String, String)>) -> (r: u64)
        ensures
            ({
                let i = spec_series_index(
                    self.spec_entries(),
                    name@,
                    crate::config::pairs_view(labels@),
                );
                if i == -1 {
                    r == 0
                } else {
                    r == self.spec_entries()[i].value
                }
            }),
    {
        let ghost es0 = entries_view(self.entries@);
        let ghost lv = crate::config::pairs_view(labels@);
        let mut i: usize = 0;
        while i < self.entries.len()
            invariant
                i <= self.entries@.len(),
                es0 == entries_view(self.entries@),
                es0 == self.spec_entries(),
                lv == crate::config::pairs_view(labels@),
                forall|j: int|
                    0 <= j < i ==> !((#[trigger] es0[j]).name == name@ && es0[j].labels == lv),
            decreases self.entries@.len() - i,
        {
            proof {
                assert(self.entries@[i as int]@ == es0[i as int]);
            }
            if scan::str_eq(self.entries[i].name.as_str(), name) && labels_eq(
                &self.entries[i].labels,
                labels,
            ) {
                proof {
                    lemma_series_index_at(es0, name@, lv, i as int);
                }
                return self.entries[i].value;
            }
            i += 1;
        }
        proof {
            lemma_series_index_none(es0, name@, lv);
        }
        0
    }

    /// The decimal digits of a number.
    pub open spec fn spec_dec(n: nat) -> Seq<char>
        decreases n,
    {
        if n < 10 {
            seq![(48 + n) as char]
        } else {
            Self::spec_dec(n / 10).push((48 + n % 10) as char)
        }
    }

    fn u64_dec(n: u64) -> (r: String)
        ensures
            r@ == Self::spec_dec(n as nat),
        decreases n,
    {
        if n < 10 {
            let mut digits: Vec<u8> = Vec::new();
            digits.push(48 + n as u8);
            proof {
                assert(scan::all_ascii(digits@));
                assert(scan::ascii_view(digits@) =~= Self::spec_dec(n as nat));
            }
            scan::ascii_to_string(digits)
        } else {
            let mut r = Self::u64_dec(n / 10);
            let mut digit: Vec<u8> = Vec::new();
            digit.push(48 + (n % 10) as u8);
            proof {
                assert(scan::all_ascii(digit@));
            }
            let d = scan::ascii_to_string(digit);
            r.append(d.as_str());
            proof {
                assert(r@ =~= Self::spec_dec(n as nat));
            }
            r
        }
    }

    /// One rendered exposition line: the name, the labels in braces when
    /// there are any, and the value.
    pub open spec fn spec_render_line(e: MetricEntryV) -> Seq<char> {
        e.name + Self::spec_render_labels(e.labels) + " "@ + Self::spec_dec(e.value as nat)
            + "\n"@
    }

    /// The rendered label block, empty when there are no labels.
    pub open spec fn spec_render_labels(labels: Seq<(Seq<char>, Seq<char>)>) -> Seq<char>
        decreases labels.len(),
    {
        if labels.len() == 0 {
            Seq::empty()
        } else if labels.len() == 1 {
            "{"@ + labels[0].0 + "=\""@ + labels[0].1 + "\"}"@
        } else {
            Self::spec_render_labels(labels.drop_last()).drop_last() + ","@ + labels.last().0
                + "=\""@ + labels.last().1 + "\"}"@
        }
    }

    /// The whole exposition text: every series, one line each, in order.
    pub open spec fn spec_render(es: Seq<MetricEntryV>) -> Seq<char>
        decreases es.len(),
    {
        if es.len() == 0 {
            Seq::empty()
        } else {
            Self::spec_render(es.drop_last()) + Self::spec_render_line(es.last())
        }
    }

    fn render_labels(labels: &Vec<(String, String)>) -> (r: String)
        ensures
            r@ == Self::spec_render_labels(crate::config::pairs_view(labels@)),
    {
        let ghost lv = crate::config::pairs_view(labels@);
        if labels.len() == 0 {
            let r = String::new();
            proof {
                assert(r@ =~= Self::spec_render_labels(lv));
            }
            return r;
        }
        let mut r = "{".to_owned();
        let mut i: usize = 0;
        while i < labels.len()
            invariant
                i <= labels@.len(),
                labels@.len() > 0,
                lv == crate::config::pairs_view(labels@),
                i == 0 ==> r@ == "{"@,
                i > 0 ==> r@ == Self::spec_render_labels(lv.take(i as int)).drop_last(),
            decreases labels@.len() - i,
        {
            if i > 0 {
                r.append(",");
            }
            r.append(labels[i].0.as_str());
            r.append("=\"");
            r.append(labels[i].1.as_str());
            r.append("\"");
            proof {
                reveal_strlit("{");
                reveal_strlit("}");
                reveal_strlit("=\"");
                reveal_strlit(",");
                reveal_strlit("\"");
                reveal_strlit("\"}");
                assert(lv.take(i + 1).drop_last() =~= lv.take(i as int));
                assert(lv.take(i + 1).last() == lv[i as int]);
                if i == 0 {
                    assert(Self::spec_render_labels(lv.take(1)) =~= "{"@ + lv[0].0 + "=\""@
                        + lv[0].1 + "\"}"@);
                    assert(r@ =~= Self::spec_render_labels(lv.take(1)).drop_last());
                } else {
                    assert(r@ =~= Self::spec_render_labels(lv.take(i + 1)).drop_last());
                }
            }
            i += 1;
        }
        r.append("}");
        proof {
                reveal_strlit("{");
                reveal_strlit("}");
                reveal_strlit("=\"");
                reveal_strlit(",");
                reveal_strlit("\"");
                reveal_strlit("\"}");
            assert(lv.take(i as int) =~= lv);
            assert(r@ =~= Self::spec_render_labels(lv));
        }
        r
    }

    /// Render the whole registry as Prometheus exposition text.
    pub fn render(&self) -> (r: String)
        ensures
            r@ == Self::spec_render(self.spec_entries()),
    {
        let ghost es0 = entries_view(self.entries@);
        let mut r = String::new();
        let mut i: usize = 0;
        proof {
            assert(r@ =~= Self::spec_render(es0.take(0)));
        }
        while i < self.entries.len()
            invariant
                i <= self.entries@.len(),
                es0 == entries_view(self.entries@),
                r@ == Self::spec_render(es0.take(i as int)),
            decreases self.entries@.len() - i,
        {
            proof {
                assert(self.entries@[i as int]@ == es0[i as int]);
                assert(es0.take(i + 1).drop_last() =~= es0.take(i as int));
                assert(es0.take(i + 1).last() == es0[i as int]);
            }
            let e = &self.entries[i];
            r.append(e.name.as_str());
            let lab = Self::render_labels(&e.labels);
            r.append(lab.as_str());
            r.append(" ");
            let val = Self::u64_dec(e.value);
            r.append(val.as_str());
            r.append("\n");
            proof {
                assert(r@ =~= Self::spec_render(es0.take(i + 1)));
            }
            i += 1;
        }
        proof {
            assert(es0.take(i as int) =~= es0);
        }
        r
    }
}

/// One label pair.
fn label1(k: &str, v: &str) -> (r: Vec<(String, String)>)
    ensures
        crate::config::pairs_view(r@) =~= seq![(k@, v@)],
{
    let mut r: Vec<(String, String)> = Vec::new();
    r.push((k.to_owned(), v.to_owned()));
    r
}

/// Two label pairs.
fn label2(k1: &str, v1: &str, k2: &str, v2: &str) -> (r: Vec<(String, String)>)
    ensures
        crate::config::pairs_view(r@) =~= seq![(k1@, v1@), (k2@, v2@)],
{
    let mut r: Vec<(String, String)> = Vec::new();
    r.push((k1.to_owned(), v1.to_owned()));
    r.push((k2.to_owned(), v2.to_owned()));
    r
}

/// Three label pairs.
fn label3(k1: &str, v1: &str, k2: &str, v2: &str, k3: &str, v3: &str) -> (r: Vec<(String, String)>)
    ensures
        crate::config::pairs_view(r@) =~= seq![(k1@, v1@), (k2@, v2@), (k3@, v3@)],
{
    let mut r: Vec<(String, String)> = Vec::new();
    r.push((k1.to_owned(), v1.to_owned()));
    r.push((k2.to_owned(), v2.to_owned()));
    r.push((k3.to_owned(), v3.to_owned()));
    r
}

/// The duration histogram's upper bounds, in milliseconds, with their `le`
/// label texts.
pub open spec fn spec_bucket_bounds() -> Seq<(Seq<char>, u64)> {
    seq![
        ("5"@, 5u64),
        ("10"@, 10u64),
        ("25"@, 25u64),
        ("50"@, 50u64),
        ("100"@, 100u64),
        ("250"@, 250u64),
        ("500"@, 500u64),
        ("1000"@, 1000u64),
        ("2500"@, 2500u64),
        ("5000"@, 5000u64),
        ("10000"@, 10000u64),
    ]
}

/// One bound of the duration histogram.
fn bucket_bound(i: usize) -> (r: (&'static str, u64))
    requires
        i < spec_bucket_bounds().len(),
    ensures
        r.0@ == spec_bucket_bounds()[i as int].0,
        r.1 == spec_bucket_bounds()[i as int].1,
{
    match i {
        0 => ("5", 5),
        1 => ("10", 10),
        2 => ("25", 25),
        3 => ("50", 50),
        4 => ("100", 100),
        5 => ("250", 250),
        6 => ("500", 500),
        7 => ("1000", 1000),
        8 => ("2500", 2500),
        9 => ("5000", 5000),
        _ => ("10000", 10000),
    }
}

/// The labels of one duration-bucket series.
pub open spec fn spec_le_labels(backend: Seq<char>, server: Seq<char>, le: Seq<char>) -> Seq<
    (Seq<char>, Seq<char>),
> {
    seq![("backend"@, backend), ("server"@, server), ("le"@, le)]
}

/// The registry after counting a duration into the first `k` bounded
/// buckets: each cumulative bucket whose bound the duration does not
/// exceed grows by one.
pub open spec fn spec_duration_buckets(
    es: Seq<MetricEntryV>,
    backend: Seq<char>,
    server: Seq<char>,
    duration_ms: u64,
    k: int,
) -> Seq<MetricEntryV>
    decreases k,
{
    if k <= 0 {
        es
    } else {
        let es1 = spec_duration_buckets(es, backend, server, duration_ms, k - 1);
        if duration_ms <= spec_bucket_bounds()[k - 1].1 {
            spec_bumped(
                es1,
                "turbogate_request_duration_ms_bucket"@,
                spec_le_labels(backend, server, spec_bucket_bounds()[k - 1].0),
                1,
            )
        } else {
            es1
        }
    }
}

/// Everything one finished request records: the outcome-tagged request
/// counter, the cumulative duration buckets including the unbounded one,
/// and the duration sum and count.
pub open spec fn spec_request_completed(
    es: Seq<MetricEntryV>,
    backend: Seq<char>,
    server: Seq<char>,
    status: Seq<char>,
    duration_ms: u64,
) -> Seq<MetricEntryV> {
    let es1 = spec_bumped(
        es,
        "turbogate_requests_total"@,
        seq![("backend"@, backend), ("server"@, server), ("status"@, status)],
        1,
    );
    let es2 = spec_duration_buckets(es1, backend, server, duration_ms, 11);
    let es3 = spec_bumped(
        es2,
        "turbogate_request_duration_ms_bucket"@,
        spec_le_labels(backend, server, "+Inf"@),
        1,
    );
    let es4 = spec_bumped(
        es3,
        "turbogate_request_duration_ms_sum"@,
        seq![("backend"@, backend), ("server"@, server)],
        duration_ms,
    );
    spec_bumped(
        es4,
        "turbogate_request_duration_ms_count"@,
        seq![("backend"@, backend), ("server"@, server)],
        1,
    )
}

/// A connection finished on a frontend: its active-connection gauge drops.
pub fn connection_closed(m: &mut Metrics, frontend: &str)
    ensures
        final(m).spec_entries() == spec_lowered(
            old(m).spec_entries(),
            "turbogate_active_connections"@,
            seq![("frontend"@, frontend@)],
            1,
        ),
{
    m.lower("turbogate_active_connections".to_owned(), label1("frontend", frontend), 1);
}

/// A connection was accepted on a frontend.
pub fn connection_accepted(m: &mut Metrics, frontend: &str)
    ensures
        final(m).spec_entries() == spec_bumped(
            spec_bumped(
                old(m).spec_entries(),
                "turbogate_connections_total"@,
                seq![("frontend"@, frontend@)],
                1,
            ),
            "turbogate_active_connections"@,
            seq![("frontend"@, frontend@)],
            1,
        ),
{
    m.bump("turbogate_connections_total".to_owned(), label1("frontend", frontend), 1);
    m.bump("turbogate_active_connections".to_owned(), label1("frontend", frontend), 1);
}

/// A connection was refused, tagged with why.
pub fn connection_error(m: &mut Metrics, frontend: &str, error_type: &str)
    ensures
        final(m).spec_entries() == spec_bumped(
            old(m).spec_entries(),
            "turbogate_connection_errors_total"@,
            seq![("frontend"@, frontend@), ("error_type"@, error_type@)],
            1,
        ),
{
    m.bump(
        "turbogate_connection_errors_total".to_owned(),
        label2("frontend", frontend, "error_type", error_type),
        1,
    );
}

/// A request reached a server of a backend.
pub fn request_started(m: &mut Metrics, backend: &str, server: &str)
    ensures
        final(m).spec_entries() == spec_bumped(
            old(m).spec_entries(),
            "turbogate_requests_total"@,
            seq![("backend"@, backend@), ("server"@, server@)],
            1,
        ),
{
    m.bump(
        "turbogate_requests_total".to_owned(),
        label2("backend", backend, "server", server),
        1,
    );
}

/// A request finished with the given outcome label: the outcome-tagged
/// request counter grows, the duration lands in every cumulative histogram
/// bucket it fits, and the per-server duration sum and count grow.
pub fn request_completed(m: &mut Metrics, backend: &str, server: &str, status: &str, duration_ms: u64)
    ensures
        final(m).spec_entries() == spec_request_completed(
            old(m).spec_entries(),
            backend@,
            server@,
            status@,
            duration_ms,
        ),
{
    m.bump(
        "turbogate_requests_total".to_owned(),
        label3("backend", backend, "server", server, "status", status),
        1,
    );
    let ghost es1 = m.spec_entries();
    let mut i: usize = 0;
    proof {
        assert(m.spec_entries() == spec_duration_buckets(es1, backend@, server@, duration_ms, 0));
    }
    while i < 11
        invariant
            i <= 11,
            m.spec_entries() == spec_duration_buckets(
                es1,
                backend@,
                server@,
                duration_ms,
                i as int,
            ),
        decreases 11 - i,
    {
        let (le, bound) = bucket_bound(i);
        if duration_ms <= bound {
            m.bump(
                "turbogate_request_duration_ms_bucket".to_owned(),
                label3("backend", backend, "server", server, "le", le),
                1,
            );
        }
        i += 1;
    }
    m.bump(
        "turbogate_request_duration_ms_bucket".to_owned(),
        label3("backend", backend, "server", server, "le", "+Inf"),
        1,
    );
    m.bump(
        "turbogate_request_duration_ms_sum".to_owned(),
        label2("backend", backend, "server", server),
        duration_ms,
    );
    m.bump(
        "turbogate_request_duration_ms_count".to_owned(),
        label2("backend", backend, "server", server),
        1,
    );
}

/// A request failed, tagged with why.
pub fn request_failed(m: &mut Metrics, backend: &str, server: &str, error_type: &str)
    ensures
        final(m).spec_entries() == spec_bumped(
            old(m).spec_entries(),
            "turbogate_request_errors_total"@,
            seq![("backend"@, backend@), ("server"@, server@), ("error_type"@, error_type@)],
            1,
        ),
{
    let mut labels: Vec<(String, String)> = Vec::new();
    labels.push(("backend".to_owned(), backend.to_owned()));
    labels.push(("server".to_owned(), server.to_owned()));
    labels.push(("error_type".to_owned(), error_type.to_owned()));
    proof {
        assert(crate::config::pairs_view(labels@) =~= seq![
            ("backend"@, backend@),
            ("server"@, server@),
            ("error_type"@, error_type@),
        ]);
    }
    m.bump("turbogate_request_errors_total".to_owned(), labels, 1);
}

/// Bytes moved through a frontend in one direction.
pub fn bytes_transferred(m: &mut Metrics, frontend: &str, direction: &str, count: u64)
    ensures
        final(m).spec_entries() == spec_bumped(
            old(m).spec_entries(),
            "turbogate_bytes_transferred_total"@,
            seq![("frontend"@, frontend@), ("direction"@, direction@)],
            count,
        ),
{
    m.bump(
        "turbogate_bytes_transferred_total".to_owned(),
        label2("frontend", frontend, "direction", direction),
        count,
    );
}

/// How many of a backend's servers are Up.
pub fn backend_active_servers(m: &mut Metrics, backend: &str, count: u64)
    ensures
        final(m).spec_entries() == spec_bumped(
            spec_lowered(
                old(m).spec_entries(),
                "turbogate_backend_active_servers"@,
                seq![("backend"@, backend@)],
                u64::MAX,
            ),
            "turbogate_backend_active_servers"@,
            seq![("backend"@, backend@)],
            count,
        ),
{
    m.lower("turbogate_backend_active_servers".to_owned(), label1("backend", backend), u64::MAX);
    m.bump("turbogate_backend_active_servers".to_owned(), label1("backend", backend), count);
}

/// How many servers a backend has in all.
pub fn backend_total_servers(m: &mut Metrics, backend: &str, count: u64)
    ensures
        final(m).spec_entries() == spec_bumped(
            spec_lowered(
                old(m).spec_entries(),
                "turbogate_backend_total_servers"@,
                seq![("backend"@, backend@)],
                u64::MAX,
            ),
            "turbogate_backend_total_servers"@,
            seq![("backend"@, backend@)],
            count,
        ),
{
    m.lower("turbogate_backend_total_servers".to_owned(), label1("backend", backend), u64::MAX);
    m.bump("turbogate_backend_total_servers".to_owned(), label1("backend", backend), count);
}

/// A server's status flipped: 1 when it came up, 0 otherwise.
pub fn server_status_changed(m: &mut Metrics, server: &str, up: bool)
    ensures
        final(m).spec_entries() == spec_bumped(
            spec_lowered(
                old(m).spec_entries(),
                "turbogate_server_status"@,
                seq![("server"@, server@)],
                u64::MAX,
            ),
            "turbogate_server_status"@,
            seq![("server"@, server@)],
            if up {
                1u64
            } else {
                0u64
            },
        ),
{
    m.lower("turbogate_server_status".to_owned(), label1("server", server), u64::MAX);
    m.bump(
        "turbogate_server_status".to_owned(),
        label1("server", server),
        if up {
            1
        } else {
            0
        },
    );
}

/// One probe ran, tagged by its outcome.
pub fn health_check(m: &mut Metrics, server: &str, success: bool)
    ensures
        final(m).spec_entries() == spec_bumped(
            old(m).spec_entries(),
            "turbogate_health_checks_total"@,
            seq![
                ("server"@, server@),
                ("success"@, if success {
                    "true"@
                } else {
                    "false"@
                }),
            ],
            1,
        ),
{
    let v = if success {
        "true"
    } else {
        "false"
    };
    m.bump(
        "turbogate_health_checks_total".to_owned(),
        label2("server", server, "success", v),
        1,
    );
}

/// Whether a metrics request line asks for the configured path: it must
/// read `GET <path> HTTP/1.1` up front.
pub fn route_request(request: &[u8], path: &str) -> (r: bool)
    ensures
        r == ("GET ".spec_bytes() + path.spec_bytes() + " HTTP/1.1".spec_bytes()).is_prefix_of(
            request@,
        ),
{
    let mut want: Vec<u8> = vstd::slice::slice_to_vec("GET ".as_bytes());
    let mut i: usize = 0;
    let pb = path.as_bytes();
    while i < pb.len()
        invariant
            i <= pb@.len(),
            want@ == "GET ".spec_bytes() + pb@.take(i as int),
        decreases pb@.len() - i,
    {
        want.push(pb[i]);
        proof {
            assert(want@ =~= "GET ".spec_bytes() + pb@.take(i + 1));
        }
        i += 1;
    }
    let tail = " HTTP/1.1".as_bytes();
    let mut j: usize = 0;
    while j < tail.len()
        invariant
            j <= tail@.len(),
            want@ == "GET ".spec_bytes() + pb@.take(pb@.len() as int) + tail@.take(j as int),
        decreases tail@.len() - j,
    {
        want.push(tail[j]);
        proof {
            assert(want@ =~= "GET ".spec_bytes() + pb@.take(pb@.len() as int) + tail@.take(j + 1));
        }
        j += 1;
    }
    proof {
        assert(pb@.take(pb@.len() as int) =~= path.spec_bytes());
        assert(tail@.take(tail@.len() as int) =~= " HTTP/1.1".spec_bytes());
        assert(want@ =~= "GET ".spec_bytes() + path.spec_bytes() + " HTTP/1.1".spec_bytes());
    }
    scan::starts_with(request, want.as_slice())
}

} // verus!
