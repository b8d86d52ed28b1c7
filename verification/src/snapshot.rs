//! Point-in-time captures of the metric registry, and the delta, rate,
//! and hit-rate queries between two captures.
//!
//! A snapshot classifies every registry record into counters or gauges
//! by its capability, de-duplicating by name with the later record
//! winning, and stores the fixed percentile ladder of each configured
//! latency heatmap. Two snapshots are compared only by name-keyed
//! lookup; a counter absent from one side counts as zero.

use vstd::prelude::*;

use crate::metrics::{registry_view, MetricKind, MetricRecord, RecordView};

verus! {

/// A captured metric value with its optional description.
pub struct SnapshotEntry<T> {
    pub description: Option<String>,
    pub value: T,
}

/// The spec-level image of one named capture: name, description, and
/// the value as an unbounded integer.
pub struct EntryModel {
    pub name: Seq<char>,
    pub description: Option<Seq<char>>,
    pub value: int,
}

/// The spec-level image of an optional string.
pub open spec fn opt_view(o: Option<String>) -> Option<Seq<char>> {
    match o {
        Option::Some(s) => Option::Some(s@),
        Option::None => Option::None,
    }
}

/// The model of one named counter capture.
pub open spec fn counter_model(p: (String, SnapshotEntry<u64>)) -> EntryModel {
    EntryModel { name: p.0@, description: opt_view(p.1.description), value: p.1.value as int }
}

/// The model of one named gauge capture.
pub open spec fn gauge_model(p: (String, SnapshotEntry<i64>)) -> EntryModel {
    EntryModel { name: p.0@, description: opt_view(p.1.description), value: p.1.value as int }
}

/// The model of a counter table.
pub open spec fn counters_model(s: Seq<(String, SnapshotEntry<u64>)>) -> Seq<EntryModel> {
    s.map_values(|p: (String, SnapshotEntry<u64>)| counter_model(p))
}

/// The model of a gauge table.
pub open spec fn gauges_model(s: Seq<(String, SnapshotEntry<i64>)>) -> Seq<EntryModel> {
    s.map_values(|p: (String, SnapshotEntry<i64>)| gauge_model(p))
}

/// Every entry value fits the machine counter range it was captured
/// from.
pub open spec fn bounded_entries(s: Seq<EntryModel>) -> bool {
    forall|k: int|
        0 <= k < s.len() ==> -0x8000_0000_0000_0000 <= (#[trigger] s[k]).value
            <= 0xffff_ffff_ffff_ffff
}

/// Captured counter and gauge tables are always within that range.
pub proof fn lemma_models_bounded(
    counters: Seq<(String, SnapshotEntry<u64>)>,
    gauges: Seq<(String, SnapshotEntry<i64>)>,
)
    ensures
        bounded_entries(counters_model(counters)),
        bounded_entries(gauges_model(gauges)),
{
}

/// Index of the first entry with the given name, or `-1` when absent.
pub open spec fn find_entry(s: Seq<EntryModel>, name: Seq<char>) -> int
    decreases s.len(),
{
    if s.len() == 0 {
        -1
    } else if s[0].name == name {
        0
    } else {
        let r = find_entry(s.drop_first(), name);
        if r < 0 {
            -1
        } else {
            1 + r
        }
    }
}

/// The table holds an entry under the name.
pub open spec fn has_entry(s: Seq<EntryModel>, name: Seq<char>) -> bool {
    find_entry(s, name) >= 0
}

/// The value under the name, with absent names counting as zero.
pub open spec fn value_or_zero(s: Seq<EntryModel>, name: Seq<char>) -> int {
    let j = find_entry(s, name);
    if j < 0 {
        0
    } else {
        s[j].value
    }
}

/// Inserts or replaces the entry under its name, the way a name-keyed
/// map insert behaves.
pub open spec fn upsert_entry(s: Seq<EntryModel>, e: EntryModel) -> Seq<EntryModel> {
    let j = find_entry(s, e.name);
    if j < 0 {
        s.push(e)
    } else {
        s.update(j, e)
    }
}

/// The counter table a registry walk produces: every counter-kind
/// record inserted in order, later records replacing earlier ones of
/// the same name.
pub open spec fn collect_counters(rs: Seq<RecordView>) -> Seq<EntryModel>
    decreases rs.len(),
{
    if rs.len() == 0 {
        Seq::<EntryModel>::empty()
    } else {
        let prev = collect_counters(rs.drop_last());
        match rs.last().kind {
            MetricKind::Counter(v) => upsert_entry(
                prev,
                EntryModel { name: rs.last().name, description: rs.last().description, value: v as int },
            ),
            _ => prev,
        }
    }
}

/// The gauge table a registry walk produces.
pub open spec fn collect_gauges(rs: Seq<RecordView>) -> Seq<EntryModel>
    decreases rs.len(),
{
    if rs.len() == 0 {
        Seq::<EntryModel>::empty()
    } else {
        let prev = collect_gauges(rs.drop_last());
        match rs.last().kind {
            MetricKind::Gauge(v) => upsert_entry(
                prev,
                EntryModel { name: rs.last().name, description: rs.last().description, value: v as int },
            ),
            _ => prev,
        }
    }
}

/// The percentile ladder queried from each latency heatmap: 25, 50, 75,
/// 90, 99, 99.9 and 99.99, in that order.
pub struct PercentileValues {
    pub p25: u64,
    pub p50: u64,
    pub p75: u64,
    pub p90: u64,
    pub p99: u64,
    pub p999: u64,
    pub p9999: u64,
}

/// The labelled pairs a percentile ladder renders as.
pub open spec fn percentile_pairs(v: PercentileValues) -> Seq<(Seq<char>, u64)> {
    seq![
        ("p25"@, v.p25),
        ("p50"@, v.p50),
        ("p75"@, v.p75),
        ("p90"@, v.p90),
        ("p99"@, v.p99),
        ("p999"@, v.p999),
        ("p9999"@, v.p9999),
    ]
}

/// The model of a stored percentile table.
pub open spec fn pcts_model(s: Seq<(String, u64)>) -> Seq<(Seq<char>, u64)> {
    s.map_values(|p: (String, u64)| (p.0@, p.1))
}

/// An immutable, timestamped capture of every counter and gauge value
/// plus the percentile ladders of the two latency heatmaps.
pub struct Snapshot {
    pub counters: Vec<(String, SnapshotEntry<u64>)>,
    pub gauges: Vec<(String, SnapshotEntry<i64>)>,
    pub timestamp_ns: u64,
    pub connect_percentiles: Vec<(String, u64)>,
    pub request_percentiles: Vec<(String, u64)>,
}

/// An exact interval rate or percentage as a rational number. The
/// denominator is always positive, so no query ever divides by zero.
pub struct Ratio {
    pub num: i128,
    pub den: i128,
}

impl Ratio {
    /// A well-formed ratio has a positive denominator.
    pub open spec fn wf(&self) -> bool {
        self.den > 0
    }

    /// The ratio is exactly zero.
    pub fn is_zero(&self) -> (r: bool)
        ensures
            r == (self.num == 0),
    {
        self.num == 0
    }
}

/// The hit-rate between two snapshots: one hundred times the hit delta
/// over the total delta when the total rate is positive, and zero
/// otherwise — including when the two timestamps coincide.
pub open spec fn hitrate_model(
    newer: Seq<EntryModel>,
    older: Seq<EntryModel>,
    elapsed_positive: bool,
    total_name: Seq<char>,
    hit_name: Seq<char>,
) -> Ratio {
    let td = value_or_zero(newer, total_name) - value_or_zero(older, total_name);
    let hd = value_or_zero(newer, hit_name) - value_or_zero(older, hit_name);
    if elapsed_positive && td > 0 {
        Ratio { num: (100 * hd) as i128, den: td as i128 }
    } else {
        Ratio { num: 0, den: 1 }
    }
}

/// The success percentage between two snapshots: one hundred minus the
/// error share when the total rate is positive, and one hundred
/// otherwise.
pub open spec fn success_rate_model(
    newer: Seq<EntryModel>,
    older: Seq<EntryModel>,
    elapsed_positive: bool,
    total_name: Seq<char>,
    error_name: Seq<char>,
) -> Ratio {
    let td = value_or_zero(newer, total_name) - value_or_zero(older, total_name);
    let ed = value_or_zero(newer, error_name) - value_or_zero(older, error_name);
    if elapsed_positive && td > 0 {
        Ratio { num: (100 * (td - ed)) as i128, den: td as i128 }
    } else {
        Ratio { num: 100, den: 1 }
    }
}

/// Looks up a counter value by name, with absent names counting as
/// zero.
fn lookup_counter(table: &Vec<(String, SnapshotEntry<u64>)>, name: &String) -> (v: u64)
    ensures
        v as int == value_or_zero(counters_model(table@), name@),
{
    let n = table.len();
    let mut i: usize = 0;
    while i < n
        invariant
            n == table@.len(),
            0 <= i <= n,
            forall|k: int|
                0 <= k < i ==> (#[trigger] counters_model(table@)[k]).name != name@,
        decreases n - i,
    {
        if table[i].0.eq(name) {
            proof {
                lemma_find_entry_at(counters_model(table@), name@, i as int);
            }
            return table[i].1.value;
        }
        i = i + 1;
    }
    proof {
        lemma_find_entry_absent(counters_model(table@), name@);
    }
    0
}

/// A match at `i` with no earlier match pins down `find_entry`.
proof fn lemma_find_entry_at(s: Seq<EntryModel>, name: Seq<char>, i: int)
    requires
        0 <= i < s.len(),
        s[i].name == name,
        forall|k: int| 0 <= k < i ==> (#[trigger] s[k]).name != name,
    ensures
        find_entry(s, name) == i,
        s[i].value == value_or_zero(s, name),
    decreases i,
{
    if i == 0 {
    } else {
        let t = s.drop_first();
        assert forall|k: int| 0 <= k < i - 1 implies (#[trigger] t[k]).name != name by {
            assert(t[k] == s[k + 1]);
        }
        assert(t[i - 1] == s[i]);
        lemma_find_entry_at(t, name, i - 1);
    }
}

/// No match anywhere means the name is absent.
proof fn lemma_find_entry_absent(s: Seq<EntryModel>, name: Seq<char>)
    requires
        forall|k: int| 0 <= k < s.len() ==> (#[trigger] s[k]).name != name,
    ensures
        find_entry(s, name) == -1,
    decreases s.len(),
{
    if s.len() > 0 {
        let t = s.drop_first();
        assert forall|k: int| 0 <= k < t.len() implies (#[trigger] t[k]).name != name by {
            assert(t[k] == s[k + 1]);
        }
        lemma_find_entry_absent(t, name);
    }
}

impl Snapshot {
    /// Classifies every registry record into the counter or gauge
    /// table, walking the registry once in order with later records of
    /// a name replacing earlier ones, stores the two percentile
    /// ladders, and stamps the capture time.
    pub fn new(
        records: &Vec<MetricRecord>,
        connect: Option<&PercentileValues>,
        request: Option<&PercentileValues>,
        timestamp_ns: u64,
    ) -> (s: Snapshot)
        ensures
            counters_model(s.counters@) == collect_counters(registry_view(records@)),
            gauges_model(s.gauges@) == collect_gauges(registry_view(records@)),
            s.timestamp_ns == timestamp_ns,
            pcts_model(s.connect_percentiles@) == (match connect {
                Option::Some(v) => percentile_pairs(*v),
                Option::None => Seq::<(Seq<char>, u64)>::empty(),
            }),
            pcts_model(s.request_percentiles@) == (match request {
                Option::Some(v) => percentile_pairs(*v),
                Option::None => Seq::<(Seq<char>, u64)>::empty(),
            }),
    {
        let ghost rv = registry_view(records@);
        let mut counters: Vec<(String, SnapshotEntry<u64>)> = Vec::new();
        let mut gauges: Vec<(String, SnapshotEntry<i64>)> = Vec::new();
        let n = records.len();
        let mut i: usize = 0;
        proof {
            assert(rv.subrange(0, 0) =~= Seq::<RecordView>::empty());
            assert(counters_model(counters@) =~= Seq::<EntryModel>::empty());
            assert(gauges_model(gauges@) =~= Seq::<EntryModel>::empty());
        }
        while i < n
            invariant
                n == records@.len(),
                0 <= i <= n,
                rv == registry_view(records@),
                counters_model(counters@) == collect_counters(rv.subrange(0, i as int)),
                gauges_model(gauges@) == collect_gauges(rv.subrange(0, i as int)),
            decreases n - i,
        {
            let rec = &records[i];
            proof {
                assert(rv.subrange(0, i + 1).drop_last() =~= rv.subrange(0, i as int));
                assert(rv.subrange(0, i + 1).last() == records@[i as int]@);
            }
            let description = match &rec.description {
                Some(d) => Some(d.clone()),
                None => None,
            };
            match rec.kind {
                MetricKind::Counter(v) => {
                    let entry = SnapshotEntry { description, value: v };
                    upsert_counter(&mut counters, rec.name.clone(), entry);
                },
                MetricKind::Gauge(v) => {
                    let entry = SnapshotEntry { description, value: v };
                    upsert_gauge(&mut gauges, rec.name.clone(), entry);
                },
                MetricKind::Other => {},
            }
            i = i + 1;
        }
        proof {
            assert(rv.subrange(0, n as int) =~= rv);
        }
        let connect_percentiles = match connect {
            Some(v) => percentile_table(v),
            None => Vec::new(),
        };
        let request_percentiles = match request {
            Some(v) => percentile_table(v),
            None => Vec::new(),
        };
        proof {
            if connect is None {
                assert(pcts_model(connect_percentiles@) =~= Seq::<(Seq<char>, u64)>::empty());
            }
            if request is None {
                assert(pcts_model(request_percentiles@) =~= Seq::<(Seq<char>, u64)>::empty());
            }
        }
        Snapshot { counters, gauges, timestamp_ns, connect_percentiles, request_percentiles }
    }

    /// The difference of a counter's values in the two snapshots, this
    /// one minus the other, by name; a name absent from a side counts
    /// as zero there. A counter reset shows up as a negative delta and
    /// is surfaced as-is.
    pub fn delta_count(&self, other: &Snapshot, counter: &String) -> (d: i128)
        ensures
            d == value_or_zero(counters_model(self.counters@), counter@) - value_or_zero(
                counters_model(other.counters@),
                counter@,
            ),
            -0xffff_ffff_ffff_ffff <= d <= 0xffff_ffff_ffff_ffff,
    {
        let a = lookup_counter(&self.counters, counter);
        let b = lookup_counter(&other.counters, counter);
        (a as i128) - (b as i128)
    }

    /// The per-second rate of a counter between the two snapshots, as
    /// an exact ratio of the delta times a nanosecond scale over the
    /// elapsed nanoseconds. The elapsed time must be positive; the
    /// guard sits at the call site.
    pub fn rate(&self, other: &Snapshot, counter: &String) -> (r: Ratio)
        requires
            self.timestamp_ns > other.timestamp_ns,
        ensures
            r.num == 1_000_000_000 * (value_or_zero(counters_model(self.counters@), counter@)
                - value_or_zero(counters_model(other.counters@), counter@)),
            r.den == self.timestamp_ns - other.timestamp_ns,
            r.wf(),
    {
        let delta = self.delta_count(other, counter);
        let elapsed = (self.timestamp_ns - other.timestamp_ns) as i128;
        Ratio { num: 1_000_000_000i128 * delta, den: elapsed }
    }

    /// The hit-rate health signal between this snapshot and an older
    /// one: one hundred times the hit rate over the total rate when the
    /// total rate is positive, and zero otherwise. No division is ever
    /// attempted, whatever the timestamps.
    pub fn hitrate(&self, other: &Snapshot, total: &String, hit: &String) -> (r: Ratio)
        ensures
            r == hitrate_model(
                counters_model(self.counters@),
                counters_model(other.counters@),
                self.timestamp_ns > other.timestamp_ns,
                total@,
                hit@,
            ),
            r.wf(),
    {
        let td = self.delta_count(other, total);
        let hd = self.delta_count(other, hit);
        if self.timestamp_ns > other.timestamp_ns && td > 0 {
            Ratio { num: 100i128 * hd, den: td }
        } else {
            Ratio { num: 0, den: 1 }
        }
    }

    /// The success percentage between this snapshot and an older one:
    /// one hundred minus the error share of the total when the total
    /// rate is positive, and one hundred otherwise.
    pub fn success_rate(&self, other: &Snapshot, total: &String, error: &String) -> (r: Ratio)
        ensures
            r == success_rate_model(
                counters_model(self.counters@),
                counters_model(other.counters@),
                self.timestamp_ns > other.timestamp_ns,
                total@,
                error@,
            ),
            r.wf(),
    {
        let td = self.delta_count(other, total);
        let ed = self.delta_count(other, error);
        if self.timestamp_ns > other.timestamp_ns && td > 0 {
            Ratio { num: 100i128 * (td - ed), den: td }
        } else {
            Ratio { num: 100, den: 1 }
        }
    }
}

/// Builds the stored percentile table for one heatmap's ladder.
fn percentile_table(v: &PercentileValues) -> (t: Vec<(String, u64)>)
    ensures
        pcts_model(t@) == percentile_pairs(*v),
{
    let mut t: Vec<(String, u64)> = Vec::new();
    t.push((String::from_str("p25"), v.p25));
    t.push((String::from_str("p50"), v.p50));
    t.push((String::from_str("p75"), v.p75));
    t.push((String::from_str("p90"), v.p90));
    t.push((String::from_str("p99"), v.p99));
    t.push((String::from_str("p999"), v.p999));
    t.push((String::from_str("p9999"), v.p9999));
    proof {
        assert(pcts_model(t@) =~= percentile_pairs(*v));
    }
    t
}

/// Inserts or replaces one counter capture under its name.
fn upsert_counter(
    table: &mut Vec<(String, SnapshotEntry<u64>)>,
    name: String,
    entry: SnapshotEntry<u64>,
)
    ensures
        counters_model(final(table)@) == upsert_entry(
            counters_model(old(table)@),
            EntryModel { name: name@, description: opt_view(entry.description), value: entry.value as int },
        ),
{
    let ghost model = counters_model(table@);
    let ghost e = EntryModel {
        name: name@,
        description: opt_view(entry.description),
        value: entry.value as int,
    };
    let n = table.len();
    let mut i: usize = 0;
    while i < n
        invariant
            n == table@.len(),
            model == counters_model(table@),
            model == counters_model(old(table)@),
            e.name == name@,
            e.description == opt_view(entry.description),
            e.value == entry.value as int,
            0 <= i <= n,
            forall|k: int| 0 <= k < i ==> (#[trigger] model[k]).name != name@,
        decreases n - i,
    {
        if table[i].0.eq(&name) {
            proof {
                lemma_find_entry_at(model, name@, i as int);
            }
            let ghost pre = table@;
            let ghost newpair = (name, entry);
            let _ = table.remove(i);
            table.insert(i, (name, entry));
            proof {
                let mid = pre.remove(i as int);
                pre.remove_ensures(i as int);
                mid.insert_ensures(i as int, newpair);
                assert(table@[i as int] == newpair);
                assert(newpair.0@ == e.name);
                assert(opt_view(newpair.1.description) == e.description);
                assert(newpair.1.value as int == e.value);
                assert(counter_model(newpair) == e);
                assert forall|k: int| 0 <= k < table@.len() implies counters_model(table@)[k]
                    == model.update(i as int, e)[k] by {
                    if k < i {
                        assert(table@[k] == mid[k]);
                        assert(mid[k] == pre[k]);
                    } else if k > i {
                        assert(table@[k] == mid[k - 1]);
                        assert(mid[k - 1] == pre[k]);
                    }
                }
                assert(counters_model(table@) =~= model.update(i as int, e));
            }
            return ;
        }
        i = i + 1;
    }
    proof {
        lemma_find_entry_absent(model, name@);
    }
    table.push((name, entry));
    proof {
        assert(counters_model(table@) =~= model.push(e));
    }
}

/// Inserts or replaces one gauge capture under its name.
fn upsert_gauge(
    table: &mut Vec<(String, SnapshotEntry<i64>)>,
    name: String,
    entry: SnapshotEntry<i64>,
)
    ensures
        gauges_model(final(table)@) == upsert_entry(
            gauges_model(old(table)@),
            EntryModel { name: name@, description: opt_view(entry.description), value: entry.value as int },
        ),
{
    let ghost model = gauges_model(table@);
    let ghost e = EntryModel {
        name: name@,
        description: opt_view(entry.description),
        value: entry.value as int,
    };
    let n = table.len();
    let mut i: usize = 0;
    while i < n
        invariant
            n == table@.len(),
            model == gauges_model(table@),
            model == gauges_model(old(table)@),
            e.name == name@,
            e.description == opt_view(entry.description),
            e.value == entry.value as int,
            0 <= i <= n,
            forall|k: int| 0 <= k < i ==> (#[trigger] model[k]).name != name@,
        decreases n - i,
    {
        if table[i].0.eq(&name) {
            proof {
                lemma_find_entry_at(model, name@, i as int);
            }
            let ghost pre = table@;
            let ghost newpair = (name, entry);
            let _ = table.remove(i);
            table.insert(i, (name, entry));
            proof {
                let mid = pre.remove(i as int);
                pre.remove_ensures(i as int);
                mid.insert_ensures(i as int, newpair);
                assert(table@[i as int] == newpair);
                assert(newpair.0@ == e.name);
                assert(opt_view(newpair.1.description) == e.description);
                assert(newpair.1.value as int == e.value);
                assert(gauge_model(newpair) == e);
                assert forall|k: int| 0 <= k < table@.len() implies gauges_model(table@)[k]
                    == model.update(i as int, e)[k] by {
                    if k < i {
                        assert(table@[k] == mid[k]);
                        assert(mid[k] == pre[k]);
                    } else if k > i {
                        assert(table@[k] == mid[k - 1]);
                        assert(mid[k - 1] == pre[k]);
                    }
                }
                assert(gauges_model(table@) =~= model.update(i as int, e));
            }
            return ;
        }
        i = i + 1;
    }
    proof {
        lemma_find_entry_absent(model, name@);
    }
    table.push((name, entry));
    proof {
        assert(gauges_model(table@) =~= model.push(e));
    }
}

} // verus!
