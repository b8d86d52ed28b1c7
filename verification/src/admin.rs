//! The administrative surface and the windowing loop's decisions.
//!
//! The transport around them — the HTTP server, the sleeps, the process
//! exit — lives outside the library; what is here is every decision:
//! how a request routes to a response, and what a reporting tick does
//! with the computed hit-rate and the window counter.

use vstd::prelude::*;

use crate::num::{is_unsigned_dec, unsigned_dec_val, parse_u64_dec};
use crate::snapshot::Ratio;
use vstd::string::StringSliceAdditionalSpecFns;

verus! {

/// The request methods the administrative surface distinguishes.
#[derive(Clone, Copy, Debug, PartialEq, Eq, Structural)]
pub enum HttpMethod {
    Get,
    Put,
    Other,
}

/// What the transport must do with one administrative request.
#[derive(Clone, Copy, Debug, PartialEq, Eq, Structural)]
pub enum AdminAction {
    /// Serve the plaintext name and version banner.
    Banner,
    /// Serve the Prometheus exposition of the current snapshot.
    PrometheusStats,
    /// Serve the JSON rendering of the current snapshot.
    JsonStats,
    /// Serve the human-readable rendering of the current snapshot.
    HumanStats,
    /// Set the reconnect rate limit and answer 200.
    SetReconnectRate(u64),
    /// Set the request rate limit and answer 200.
    SetRequestRate(u64),
    /// Answer 400: unparsable body or unconfigured limiter.
    BadRequest,
    /// Answer 404.
    NotFound,
}

/// Index of the first query separator, or the length when none occurs.
pub open spec fn first_qmark(s: Seq<char>) -> int
    decreases s.len(),
{
    if s.len() == 0 {
        0
    } else if s[0] == '?' {
        0
    } else {
        1 + first_qmark(s.drop_first())
    }
}

/// The URL with any query string stripped.
pub open spec fn url_base(s: Seq<char>) -> Seq<char> {
    s.take(first_qmark(s))
}

/// The routing table: GET paths select a report (any unknown GET path
/// falls back to the JSON rendering, after the query string is
/// stripped); PUT on a rate-limit path parses the body as a decimal
/// rate and succeeds exactly when the body parses and the limiter is
/// configured, judged on the unstripped URL; everything else is 404.
pub open spec fn route_model(
    method: HttpMethod,
    url: Seq<char>,
    body: Seq<u8>,
    has_reconnect: bool,
    has_request: bool,
) -> AdminAction {
    match method {
        HttpMethod::Get => {
            let base = url_base(url);
            if base == "/"@ {
                AdminAction::Banner
            } else if base == "/metrics"@ {
                AdminAction::PrometheusStats
            } else if base == "/metrics.json"@ || base == "/vars.json"@ || base
                == "/admin/metrics.json"@ {
                AdminAction::JsonStats
            } else if base == "/vars"@ {
                AdminAction::HumanStats
            } else {
                AdminAction::JsonStats
            }
        },
        HttpMethod::Put => {
            if url == "/ratelimit/reconnect"@ {
                if is_unsigned_dec(body, u64::MAX as int) && has_reconnect {
                    AdminAction::SetReconnectRate(unsigned_dec_val(body) as u64)
                } else {
                    AdminAction::BadRequest
                }
            } else if url == "/ratelimit/request"@ {
                if is_unsigned_dec(body, u64::MAX as int) && has_request {
                    AdminAction::SetRequestRate(unsigned_dec_val(body) as u64)
                } else {
                    AdminAction::BadRequest
                }
            } else {
                AdminAction::NotFound
            }
        },
        HttpMethod::Other => AdminAction::NotFound,
    }
}

/// A found separator with none earlier pins down `first_qmark`.
proof fn lemma_first_qmark_at(s: Seq<char>, p: int)
    requires
        0 <= p <= s.len(),
        forall|k: int| 0 <= k < p ==> s[k] != '?',
        p < s.len() ==> s[p] == '?',
    ensures
        first_qmark(s) == p,
    decreases p,
{
    if p == 0 {
    } else {
        assert(s[0] != '?');
        let t = s.drop_first();
        assert forall|k: int| 0 <= k < p - 1 implies t[k] != '?' by {
            assert(t[k] == s[k + 1]);
        }
        if p - 1 < t.len() {
            assert(t[p - 1] == s[p]);
        }
        lemma_first_qmark_at(t, p - 1);
    }
}

/// Compares two string slices by their characters.
fn str_eq(a: &str, b: &str) -> (r: bool)
    ensures
        r == (a@ == b@),
{
    let sa = String::from_str(a);
    let sb = String::from_str(b);
    sa.eq(&sb)
}

/// Routes one administrative request to the action the transport must
/// perform.
pub fn route_request(
    method: HttpMethod,
    url: &str,
    body: &str,
    has_reconnect: bool,
    has_request: bool,
) -> (a: AdminAction)
    ensures
        a == route_model(method, url@, body.spec_bytes(), has_reconnect, has_request),
{
    match method {
        HttpMethod::Get => {
            let n = url.unicode_len();
            let mut p: usize = 0;
            loop
                invariant_except_break
                    0 <= p <= n,
                    n == url@.len(),
                    forall|k: int| 0 <= k < p ==> url@[k] != '?',
                ensures
                    0 <= p <= n,
                    n == url@.len(),
                    forall|k: int| 0 <= k < p ==> url@[k] != '?',
                    p < n ==> url@[p as int] == '?',
                decreases n - p,
            {
                if p >= n {
                    break ;
                }
                if url.get_char(p) == '?' {
                    break ;
                }
                p = p + 1;
            }
            proof {
                lemma_first_qmark_at(url@, p as int);
            }
            let base = url.substring_char(0, p);
            proof {
                assert(base@ == url_base(url@));
            }
            if str_eq(base, "/") {
                AdminAction::Banner
            } else if str_eq(base, "/metrics") {
                AdminAction::PrometheusStats
            } else if str_eq(base, "/metrics.json") || str_eq(base, "/vars.json") || str_eq(
                base,
                "/admin/metrics.json",
            ) {
                AdminAction::JsonStats
            } else if str_eq(base, "/vars") {
                AdminAction::HumanStats
            } else {
                AdminAction::JsonStats
            }
        },
        HttpMethod::Put => {
            if str_eq(url, "/ratelimit/reconnect") {
                match parse_u64_dec(body.as_bytes()) {
                    Some(rate) => {
                        if has_reconnect {
                            AdminAction::SetReconnectRate(rate)
                        } else {
                            AdminAction::BadRequest
                        }
                    },
                    None => AdminAction::BadRequest,
                }
            } else if str_eq(url, "/ratelimit/request") {
                match parse_u64_dec(body.as_bytes()) {
                    Some(rate) => {
                        if has_request {
                            AdminAction::SetRequestRate(rate)
                        } else {
                            AdminAction::BadRequest
                        }
                    },
                    None => AdminAction::BadRequest,
                }
            } else {
                AdminAction::NotFound
            }
        },
        HttpMethod::Other => AdminAction::NotFound,
    }
}

/// What the windowing loop must do at one reporting boundary.
#[derive(Clone, Copy, Debug, PartialEq, Eq, Structural)]
pub enum TickDecision {
    /// The hit-rate is exactly zero: the run is degenerate and the
    /// process must terminate abnormally.
    Degenerate,
    /// Report the hit-rate and run another window.
    Continue,
    /// The configured window count is reached: stop the loop.
    Finish,
    /// The configured window count is reached and a waterfall is
    /// configured: render it, then stop the loop.
    FinishWithWaterfall,
}

/// The windowing loop's counter of completed reporting intervals and
/// its configured maximum.
pub struct WindowLoop {
    /// Completed reporting intervals.
    pub window: u64,
    /// The window count at which the run ends normally, if configured.
    pub max_windows: Option<u64>,
}

/// The decision a tick takes, given the hit-rate just computed, the
/// windows completed so far, the configured maximum, and whether a
/// waterfall destination is configured.
pub open spec fn tick_model(
    hitrate: Ratio,
    window: u64,
    max_windows: Option<u64>,
    waterfall_ready: bool,
) -> TickDecision {
    if hitrate.num == 0 {
        TickDecision::Degenerate
    } else {
        match max_windows {
            Option::Some(m) => if window >= m {
                if waterfall_ready {
                    TickDecision::FinishWithWaterfall
                } else {
                    TickDecision::Finish
                }
            } else {
                TickDecision::Continue
            },
            Option::None => TickDecision::Continue,
        }
    }
}

impl WindowLoop {
    /// A fresh loop: no window completed yet.
    pub fn new(max_windows: Option<u64>) -> (r: WindowLoop)
        ensures
            r.window == 0,
            r.max_windows == max_windows,
    {
        WindowLoop { window: 0, max_windows }
    }

    /// One reporting boundary: a zero hit-rate is a degenerate run and
    /// stops everything before the window counter moves; otherwise the
    /// window counter advances and the run either continues or, once
    /// the configured maximum is reached, ends normally — with a
    /// waterfall rendering first when one is configured.
    pub fn tick(&mut self, hitrate: &Ratio, waterfall_ready: bool) -> (d: TickDecision)
        ensures
            d == tick_model(*hitrate, old(self).window, old(self).max_windows, waterfall_ready),
            final(self).max_windows == old(self).max_windows,
            final(self).window == if d is Degenerate {
                old(self).window
            } else {
                crate::metrics::bump(old(self).window)
            },
    {
        if hitrate.is_zero() {
            return TickDecision::Degenerate;
        }
        let decision = match self.max_windows {
            Some(m) => {
                if self.window >= m {
                    if waterfall_ready {
                        TickDecision::FinishWithWaterfall
                    } else {
                        TickDecision::Finish
                    }
                } else {
                    TickDecision::Continue
                }
            },
            None => TickDecision::Continue,
        };
        self.window = self.window.wrapping_add(1);
        decision
    }
}

} // verus!
