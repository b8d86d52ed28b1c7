//! The live counters that the codec mutates, and the registry records
//! that a snapshot is built from.
//!
//! The registry is an explicitly constructed object handed by reference
//! to the traffic-generating call sites and to the snapshot constructor.
//! Each registered metric is a tagged record: a counter, a gauge, or some
//! other kind that snapshots skip.

use vstd::prelude::*;

verus! {

/// Counter increments wrap around at the 64-bit boundary, the way a
/// lock-free fetch-and-add cell behaves.
pub open spec fn bump(x: u64) -> u64 {
    if x == u64::MAX {
        0
    } else {
        (x + 1) as u64
    }
}

/// The counters with special accounting semantics on the codec's hot
/// path: requests issued as GET-shaped verbs, and responses that were
/// cache hits. Hit-rate is the ratio of the two.
pub struct Metrics {
    /// Requests issued with a GET-shaped verb.
    pub request_get: u64,
    /// Responses parsed as a present (non-miss) bulk value.
    pub response_hit: u64,
}

impl Metrics {
    /// All counters start at zero.
    pub fn new() -> (r: Metrics)
        ensures
            r.request_get == 0,
            r.response_hit == 0,
    {
        Metrics { request_get: 0, response_hit: 0 }
    }

    /// Counts one GET-shaped request.
    pub fn incr_request_get(&mut self)
        ensures
            final(self).request_get == bump(old(self).request_get),
            final(self).response_hit == old(self).response_hit,
    {
        self.request_get = self.request_get.wrapping_add(1);
    }

    /// Counts one cache hit.
    pub fn incr_response_hit(&mut self)
        ensures
            final(self).response_hit == bump(old(self).response_hit),
            final(self).request_get == old(self).request_get,
    {
        self.response_hit = self.response_hit.wrapping_add(1);
    }
}

/// The capability a registered metric exposes: a counter value, a gauge
/// value, or neither (heatmaps and other kinds, which snapshots skip).
#[derive(Clone, Copy, Debug, PartialEq, Eq, Structural)]
pub enum MetricKind {
    Counter(u64),
    Gauge(i64),
    Other,
}

/// One registered metric: a name, an optional human-readable
/// description, and its kind.
pub struct MetricRecord {
    pub name: String,
    pub description: Option<String>,
    pub kind: MetricKind,
}

/// The spec-level image of a registry record.
pub struct RecordView {
    pub name: Seq<char>,
    pub description: Option<Seq<char>>,
    pub kind: MetricKind,
}

impl View for MetricRecord {
    type V = RecordView;

    open spec fn view(&self) -> RecordView {
        RecordView {
            name: self.name@,
            description: match self.description {
                Option::Some(d) => Option::Some(d@),
                Option::None => Option::None,
            },
            kind: self.kind,
        }
    }
}

/// The spec-level image of a whole registry.
pub open spec fn registry_view(records: Seq<MetricRecord>) -> Seq<RecordView> {
    records.map_values(|r: MetricRecord| r@)
}

impl Metrics {
    /// The registry contents for these live counters: each counter under
    /// its static name, ready for a snapshot to classify.
    pub fn records(&self) -> (r: Vec<MetricRecord>)
        ensures
            registry_view(r@) =~= seq![
                RecordView {
                    name: "request/get"@,
                    description: Option::Some("requests issued as GET"@),
                    kind: MetricKind::Counter(self.request_get),
                },
                RecordView {
                    name: "response/hit"@,
                    description: Option::Some("responses that were cache hits"@),
                    kind: MetricKind::Counter(self.response_hit),
                },
            ],
    {
        let mut out: Vec<MetricRecord> = Vec::new();
        out.push(
            MetricRecord {
                name: String::from_str("request/get"),
                description: Some(String::from_str("requests issued as GET")),
                kind: MetricKind::Counter(self.request_get),
            },
        );
        out.push(
            MetricRecord {
                name: String::from_str("response/hit"),
                description: Some(String::from_str("responses that were cache hits")),
                kind: MetricKind::Counter(self.response_hit),
            },
        );
        out
    }
}

} // verus!
