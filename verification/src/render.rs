//! The three textual projections of one snapshot: human-readable lines,
//! a flat JSON object, and Prometheus exposition text.
//!
//! All three are pure functions of the snapshot: lines are built, sorted
//! lexicographically, and joined. The Prometheus text additionally has
//! every literal `/` rewritten to `_` as a final pass, to satisfy
//! exposition-format naming rules.

use vstd::prelude::*;

use crate::num::{append_i64_chars, append_u64_chars, dec_chars, dec_chars_signed};
use crate::snapshot::{
    counters_model, gauges_model, pcts_model, EntryModel, Snapshot,
};
use crate::textsort::{join_lines, lemma_deep_view_is_str_views, lemma_str_views_push, sort_lex, sort_strings, str_views, join_strings};

verus! {

/// A `name: value` line.
pub open spec fn kv_line(name: Seq<char>, value: int) -> Seq<char> {
    name + seq![':', ' '] + dec_chars_signed(value)
}

/// The human rendering's unsorted lines: counters and gauges under
/// their names, percentiles under their family-prefixed labels.
pub open spec fn human_lines(s: Snapshot) -> Seq<Seq<char>> {
    counters_model(s.counters@).map_values(|e: EntryModel| kv_line(e.name, e.value))
        + gauges_model(s.gauges@).map_values(|e: EntryModel| kv_line(e.name, e.value))
        + pcts_model(s.connect_percentiles@).map_values(
        |p: (Seq<char>, u64)| kv_line("connect_latency/"@ + p.0, p.1 as int),
    ) + pcts_model(s.request_percentiles@).map_values(
        |p: (Seq<char>, u64)| kv_line("response_latency/"@ + p.0, p.1 as int),
    )
}

/// The human rendering: sorted `name: value` lines joined by newlines,
/// with a trailing newline.
pub open spec fn human_render(s: Snapshot) -> Seq<char> {
    join_lines(sort_lex(human_lines(s)), seq!['\n']) + seq!['\n']
}

/// A `"name": value` JSON member.
pub open spec fn json_member(name: Seq<char>, value: int) -> Seq<char> {
    seq!['"'] + name + seq!['"', ':', ' '] + dec_chars_signed(value)
}

/// The JSON rendering's unsorted members.
pub open spec fn json_lines(s: Snapshot) -> Seq<Seq<char>> {
    counters_model(s.counters@).map_values(|e: EntryModel| json_member(e.name, e.value))
        + gauges_model(s.gauges@).map_values(|e: EntryModel| json_member(e.name, e.value))
        + pcts_model(s.connect_percentiles@).map_values(
        |p: (Seq<char>, u64)| json_member("connect_latency/"@ + p.0, p.1 as int),
    ) + pcts_model(s.request_percentiles@).map_values(
        |p: (Seq<char>, u64)| json_member("response_latency/"@ + p.0, p.1 as int),
    )
}

/// The JSON rendering: one flat object, members sorted and
/// comma-joined, no trailing comma.
pub open spec fn json_render(s: Snapshot) -> Seq<char> {
    seq!['{'] + join_lines(sort_lex(json_lines(s)), seq![',']) + seq!['}']
}

/// The `name value` line of a Prometheus block.
pub open spec fn prom_value_line(name: Seq<char>, value: int) -> Seq<char> {
    name + seq![' '] + dec_chars_signed(value)
}

/// One Prometheus metric block: an optional `# HELP` line, the `# TYPE`
/// line with the metric kind, then the value line.
pub open spec fn prom_block(
    name: Seq<char>,
    description: Option<Seq<char>>,
    kind_word: Seq<char>,
    value: int,
) -> Seq<char> {
    let typed = "# TYPE "@ + name + seq![' '] + kind_word + seq!['\n'] + prom_value_line(
        name,
        value,
    );
    match description {
        Option::Some(d) => "# HELP "@ + name + seq![' '] + d + seq!['\n'] + typed,
        Option::None => typed,
    }
}

/// One Prometheus percentile sample of a latency family.
pub open spec fn prom_pct_block(family: Seq<char>, label: Seq<char>, value: int) -> Seq<char> {
    "# TYPE "@ + family + " gauge\n"@ + family + "{percentile=\""@ + label + "\"} "@ + dec_chars(
        value,
    )
}

/// The Prometheus rendering's unsorted blocks.
pub open spec fn prom_blocks(s: Snapshot) -> Seq<Seq<char>> {
    counters_model(s.counters@).map_values(
        |e: EntryModel| prom_block(e.name, e.description, "counter"@, e.value),
    ) + gauges_model(s.gauges@).map_values(
        |e: EntryModel| prom_block(e.name, e.description, "gauge"@, e.value),
    ) + pcts_model(s.connect_percentiles@).map_values(
        |p: (Seq<char>, u64)| prom_pct_block("connect_latency"@, p.0, p.1 as int),
    ) + pcts_model(s.request_percentiles@).map_values(
        |p: (Seq<char>, u64)| prom_pct_block("response_latency"@, p.0, p.1 as int),
    )
}

/// The ordered name-and-value pairs that both machine renderings of a
/// snapshot draw on: counters, gauges, then the two percentile
/// families under their family-prefixed labels.
pub open spec fn render_pairs(s: Snapshot) -> Seq<(Seq<char>, int)> {
    counters_model(s.counters@).map_values(|e: EntryModel| (e.name, e.value))
        + gauges_model(s.gauges@).map_values(|e: EntryModel| (e.name, e.value))
        + pcts_model(s.connect_percentiles@).map_values(
        |p: (Seq<char>, u64)| ("connect_latency/"@ + p.0, p.1 as int),
    ) + pcts_model(s.request_percentiles@).map_values(
        |p: (Seq<char>, u64)| ("response_latency/"@ + p.0, p.1 as int),
    )
}

/// The block at one index ends with the decimal rendering of the
/// shared pair's value at that index.
pub open spec fn block_ends_with_pair_value(s: Snapshot, i: int) -> bool {
    exists|h: Seq<char>| prom_blocks(s)[i] == h + dec_chars_signed(render_pairs(s)[i].1)
}

/// The JSON members are the shared pairs rendered one by one, and
/// every Prometheus block ends with the identical decimal rendering of
/// its pair's value.
pub proof fn lemma_render_pair_structure(s: Snapshot)
    ensures
        json_lines(s) == render_pairs(s).map_values(|p: (Seq<char>, int)| json_member(p.0, p.1)),
        prom_blocks(s).len() == render_pairs(s).len(),
        forall|i: int|
            0 <= i < render_pairs(s).len() ==> #[trigger] block_ends_with_pair_value(s, i),
{
    assert(json_lines(s) =~= render_pairs(s).map_values(
        |p: (Seq<char>, int)| json_member(p.0, p.1),
    ));
    let pairs = render_pairs(s);
    let cn = counters_model(s.counters@).len() as int;
    let gn = gauges_model(s.gauges@).len() as int;
    let cpn = pcts_model(s.connect_percentiles@).len() as int;
    assert forall|i: int| 0 <= i < pairs.len() implies block_ends_with_pair_value(s, i) by {
        if i < cn {
            let e = counters_model(s.counters@)[i];
            let h = (match e.description {
                Option::Some(d) => "# HELP "@ + e.name + seq![' '] + d + seq!['\n'],
                Option::None => Seq::<char>::empty(),
            }) + "# TYPE "@ + e.name + seq![' '] + "counter"@ + seq!['\n'] + e.name + seq![' '];
            assert(prom_blocks(s)[i] == prom_block(e.name, e.description, "counter"@, e.value));
            assert(prom_block(e.name, e.description, "counter"@, e.value) =~= h
                + dec_chars_signed(e.value));
            assert(prom_blocks(s)[i] == h + dec_chars_signed(render_pairs(s)[i].1));
        } else if i < cn + gn {
            let e = gauges_model(s.gauges@)[i - cn];
            let h = (match e.description {
                Option::Some(d) => "# HELP "@ + e.name + seq![' '] + d + seq!['\n'],
                Option::None => Seq::<char>::empty(),
            }) + "# TYPE "@ + e.name + seq![' '] + "gauge"@ + seq!['\n'] + e.name + seq![' '];
            assert(prom_blocks(s)[i] == prom_block(e.name, e.description, "gauge"@, e.value));
            assert(prom_block(e.name, e.description, "gauge"@, e.value) =~= h + dec_chars_signed(
                e.value,
            ));
            assert(prom_blocks(s)[i] == h + dec_chars_signed(render_pairs(s)[i].1));
        } else if i < cn + gn + cpn {
            let p = pcts_model(s.connect_percentiles@)[i - cn - gn];
            let h = "# TYPE "@ + "connect_latency"@ + " gauge\n"@ + "connect_latency"@
                + "{percentile=\""@ + p.0 + "\"} "@;
            assert(prom_blocks(s)[i] == prom_pct_block("connect_latency"@, p.0, p.1 as int));
            assert(dec_chars_signed(p.1 as int) == dec_chars(p.1 as int));
            assert(prom_pct_block("connect_latency"@, p.0, p.1 as int) =~= h + dec_chars_signed(
                p.1 as int,
            ));
            assert(prom_blocks(s)[i] == h + dec_chars_signed(render_pairs(s)[i].1));
        } else {
            let p = pcts_model(s.request_percentiles@)[i - cn - gn - cpn];
            let h = "# TYPE "@ + "response_latency"@ + " gauge\n"@ + "response_latency"@
                + "{percentile=\""@ + p.0 + "\"} "@;
            assert(prom_blocks(s)[i] == prom_pct_block("response_latency"@, p.0, p.1 as int));
            assert(dec_chars_signed(p.1 as int) == dec_chars(p.1 as int));
            assert(prom_pct_block("response_latency"@, p.0, p.1 as int) =~= h + dec_chars_signed(
                p.1 as int,
            ));
            assert(prom_blocks(s)[i] == h + dec_chars_signed(render_pairs(s)[i].1));
        }
    }
}

/// Every `/` rewritten to `_`.
pub open spec fn replace_slash(t: Seq<char>) -> Seq<char> {
    t.map_values(
        |c: char|
            if c == '/' {
                '_'
            } else {
                c
            },
    )
}

/// The Prometheus rendering: sorted blocks joined by newlines, a
/// trailing newline, and the slash rewrite over the whole text.
pub open spec fn prom_render(s: Snapshot) -> Seq<char> {
    replace_slash(join_lines(sort_lex(prom_blocks(s)), seq!['\n']) + seq!['\n'])
}

/// Relies on str::replace: with a single-character pattern and a
/// single-character replacement, the result substitutes exactly those
/// characters, one for one.
#[verifier::external_body]
fn replace_slashes(s: &str) -> (r: String)
    ensures
        r@ == replace_slash(s@),
{
    s.replace('/', "_")
}

/// Builds a `name: value` line for a counter.
fn kv_string_u64(name: &String, value: u64) -> (r: String)
    ensures
        r@ == kv_line(name@, value as int),
{
    let mut out = name.clone();
    out.append(": ");
    append_u64_chars(&mut out, value);
    proof {
        reveal_strlit(": ");
        assert(": "@ =~= seq![':', ' ']);
        assert(out@ =~= kv_line(name@, value as int));
    }
    out
}

/// Builds a `name: value` line for a gauge.
fn kv_string_i64(name: &String, value: i64) -> (r: String)
    ensures
        r@ == kv_line(name@, value as int),
{
    let mut out = name.clone();
    out.append(": ");
    append_i64_chars(&mut out, value);
    proof {
        reveal_strlit(": ");
        assert(": "@ =~= seq![':', ' ']);
        assert(out@ =~= kv_line(name@, value as int));
    }
    out
}

/// Builds a `prefix/label: value` line for a percentile.
fn kv_string_pct(family: &str, label: &String, value: u64) -> (r: String)
    ensures
        r@ == kv_line(family@ + label@, value as int),
{
    let mut out = String::new();
    out.append(family);
    out.append(label.as_str());
    out.append(": ");
    append_u64_chars(&mut out, value);
    proof {
        reveal_strlit(": ");
        assert(": "@ =~= seq![':', ' ']);
        assert(out@ =~= kv_line(family@ + label@, value as int));
    }
    out
}

/// Builds a `"name": value` JSON member for a counter.
fn json_string_u64(name: &String, value: u64) -> (r: String)
    ensures
        r@ == json_member(name@, value as int),
{
    let mut out = String::new();
    out.append("\"");
    out.append(name.as_str());
    out.append("\": ");
    append_u64_chars(&mut out, value);
    proof {
        reveal_strlit("\"");
        reveal_strlit("\": ");
        assert("\""@ =~= seq!['"']);
        assert("\": "@ =~= seq!['"', ':', ' ']);
        assert(out@ =~= json_member(name@, value as int));
    }
    out
}

/// Builds a `"name": value` JSON member for a gauge.
fn json_string_i64(name: &String, value: i64) -> (r: String)
    ensures
        r@ == json_member(name@, value as int),
{
    let mut out = String::new();
    out.append("\"");
    out.append(name.as_str());
    out.append("\": ");
    append_i64_chars(&mut out, value);
    proof {
        reveal_strlit("\"");
        reveal_strlit("\": ");
        assert("\""@ =~= seq!['"']);
        assert("\": "@ =~= seq!['"', ':', ' ']);
        assert(out@ =~= json_member(name@, value as int));
    }
    out
}

/// Builds a `"family/label": value` JSON member for a percentile.
fn json_string_pct(family: &str, label: &String, value: u64) -> (r: String)
    ensures
        r@ == json_member(family@ + label@, value as int),
{
    let mut out = String::new();
    out.append("\"");
    out.append(family);
    out.append(label.as_str());
    out.append("\": ");
    append_u64_chars(&mut out, value);
    proof {
        reveal_strlit("\"");
        reveal_strlit("\": ");
        assert("\""@ =~= seq!['"']);
        assert("\": "@ =~= seq!['"', ':', ' ']);
        assert(out@ =~= json_member(family@ + label@, value as int));
    }
    out
}

/// Builds one Prometheus block for a counter.
fn prom_string_u64(name: &String, description: &Option<String>, value: u64) -> (r: String)
    ensures
        r@ == prom_block(
            name@,
            crate::snapshot::opt_view(*description),
            "counter"@,
            value as int,
        ),
{
    let mut out = String::new();
    match description {
        Some(d) => {
            out.append("# HELP ");
            out.append(name.as_str());
            out.append(" ");
            out.append(d.as_str());
            out.append("\n");
        },
        None => {},
    }
    out.append("# TYPE ");
    out.append(name.as_str());
    out.append(" ");
    out.append("counter");
    out.append("\n");
    out.append(name.as_str());
    out.append(" ");
    append_u64_chars(&mut out, value);
    proof {
        reveal_strlit(" ");
        reveal_strlit("\n");
        assert(" "@ =~= seq![' ']);
        assert("\n"@ =~= seq!['\n']);
        assert(out@ =~= prom_block(
            name@,
            crate::snapshot::opt_view(*description),
            "counter"@,
            value as int,
        ));
    }
    out
}

/// Builds one Prometheus block for a gauge.
fn prom_string_i64(name: &String, description: &Option<String>, value: i64) -> (r: String)
    ensures
        r@ == prom_block(name@, crate::snapshot::opt_view(*description), "gauge"@, value as int),
{
    let mut out = String::new();
    match description {
        Some(d) => {
            out.append("# HELP ");
            out.append(name.as_str());
            out.append(" ");
            out.append(d.as_str());
            out.append("\n");
        },
        None => {},
    }
    out.append("# TYPE ");
    out.append(name.as_str());
    out.append(" ");
    out.append("gauge");
    out.append("\n");
    out.append(name.as_str());
    out.append(" ");
    append_i64_chars(&mut out, value);
    proof {
        reveal_strlit(" ");
        reveal_strlit("\n");
        assert(" "@ =~= seq![' ']);
        assert("\n"@ =~= seq!['\n']);
        assert(out@ =~= prom_block(
            name@,
            crate::snapshot::opt_view(*description),
            "gauge"@,
            value as int,
        ));
    }
    out
}

/// Builds one Prometheus percentile sample.
fn prom_string_pct(family: &str, label: &String, value: u64) -> (r: String)
    ensures
        r@ == prom_pct_block(family@, label@, value as int),
{
    let mut out = String::new();
    out.append("# TYPE ");
    out.append(family);
    out.append(" gauge\n");
    out.append(family);
    out.append("{percentile=\"");
    out.append(label.as_str());
    out.append("\"} ");
    append_u64_chars(&mut out, value);
    proof {
        assert(out@ =~= prom_pct_block(family@, label@, value as int));
    }
    out
}

impl Snapshot {
    /// The human-readable projection: every counter, gauge, and latency
    /// percentile as a `name: value` line, sorted lexicographically,
    /// newline-joined, with a trailing newline. Performs no output
    /// itself.
    pub fn human(&self) -> (r: String)
        ensures
            r@ == human_render(*self),
    {
        let mut data: Vec<String> = Vec::new();
        let ghost cpart = counters_model(self.counters@).map_values(
            |e: EntryModel| kv_line(e.name, e.value),
        );
        let ghost gpart = gauges_model(self.gauges@).map_values(
            |e: EntryModel| kv_line(e.name, e.value),
        );
        let ghost cppart = pcts_model(self.connect_percentiles@).map_values(
            |p: (Seq<char>, u64)| kv_line("connect_latency/"@ + p.0, p.1 as int),
        );
        let ghost rppart = pcts_model(self.request_percentiles@).map_values(
            |p: (Seq<char>, u64)| kv_line("response_latency/"@ + p.0, p.1 as int),
        );
        let mut i: usize = 0;
        proof {
            assert(data.deep_view() =~= cpart.take(0));
        }
        while i < self.counters.len()
            invariant
                0 <= i <= self.counters@.len(),
                cpart == counters_model(self.counters@).map_values(
                    |e: EntryModel| kv_line(e.name, e.value),
                ),
                data@.len() == i as int,
                str_views(data@) == cpart.take(i as int),
            decreases self.counters@.len() - i,
        {
            let line = kv_string_u64(&self.counters[i].0, self.counters[i].1.value);
            let ghost pre = data@;
            data.push(line);
            proof {
                lemma_str_views_push(pre, line);
                assert(str_views(data@) =~= cpart.take(i + 1));
            }
            i = i + 1;
        }
        proof {
            assert(cpart.take(cpart.len() as int) =~= cpart);
        }
        let mut j: usize = 0;
        while j < self.gauges.len()
            invariant
                0 <= j <= self.gauges@.len(),
                cpart == counters_model(self.counters@).map_values(
                    |e: EntryModel| kv_line(e.name, e.value),
                ),
                gpart == gauges_model(self.gauges@).map_values(
                    |e: EntryModel| kv_line(e.name, e.value),
                ),
                data@.len() == cpart.len() + j as int,
                str_views(data@) == cpart + gpart.take(j as int),
            decreases self.gauges@.len() - j,
        {
            let line = kv_string_i64(&self.gauges[j].0, self.gauges[j].1.value);
            let ghost pre = data@;
            data.push(line);
            proof {
                lemma_str_views_push(pre, line);
                assert(str_views(data@) =~= cpart + gpart.take(j + 1));
            }
            j = j + 1;
        }
        proof {
            assert(gpart.take(gpart.len() as int) =~= gpart);
        }
        let mut k: usize = 0;
        while k < self.connect_percentiles.len()
            invariant
                0 <= k <= self.connect_percentiles@.len(),
                cpart == counters_model(self.counters@).map_values(
                    |e: EntryModel| kv_line(e.name, e.value),
                ),
                gpart == gauges_model(self.gauges@).map_values(
                    |e: EntryModel| kv_line(e.name, e.value),
                ),
                cppart == pcts_model(self.connect_percentiles@).map_values(
                    |p: (Seq<char>, u64)| kv_line("connect_latency/"@ + p.0, p.1 as int),
                ),
                data@.len() == cpart.len() + gpart.len() + k as int,
                str_views(data@) == cpart + gpart + cppart.take(k as int),
            decreases self.connect_percentiles@.len() - k,
        {
            let line = kv_string_pct(
                "connect_latency/",
                &self.connect_percentiles[k].0,
                self.connect_percentiles[k].1,
            );
            let ghost pre = data@;
            data.push(line);
            proof {
                lemma_str_views_push(pre, line);
                assert(str_views(data@) =~= cpart + gpart + cppart.take(k + 1));
            }
            k = k + 1;
        }
        proof {
            assert(cppart.take(cppart.len() as int) =~= cppart);
        }
        let mut m: usize = 0;
        while m < self.request_percentiles.len()
            invariant
                0 <= m <= self.request_percentiles@.len(),
                cpart == counters_model(self.counters@).map_values(
                    |e: EntryModel| kv_line(e.name, e.value),
                ),
                gpart == gauges_model(self.gauges@).map_values(
                    |e: EntryModel| kv_line(e.name, e.value),
                ),
                cppart == pcts_model(self.connect_percentiles@).map_values(
                    |p: (Seq<char>, u64)| kv_line("connect_latency/"@ + p.0, p.1 as int),
                ),
                rppart == pcts_model(self.request_percentiles@).map_values(
                    |p: (Seq<char>, u64)| kv_line("response_latency/"@ + p.0, p.1 as int),
                ),
                data@.len() == cpart.len() + gpart.len() + cppart.len() + m as int,
                str_views(data@) == cpart + gpart + cppart + rppart.take(m as int),
            decreases self.request_percentiles@.len() - m,
        {
            let line = kv_string_pct(
                "response_latency/",
                &self.request_percentiles[m].0,
                self.request_percentiles[m].1,
            );
            let ghost pre = data@;
            data.push(line);
            proof {
                lemma_str_views_push(pre, line);
                assert(str_views(data@) =~= cpart + gpart + cppart + rppart.take(m + 1));
            }
            m = m + 1;
        }
        proof {
            assert(rppart.take(rppart.len() as int) =~= rppart);
            lemma_deep_view_is_str_views(&data);
            assert(data.deep_view() == human_lines(*self));
        }
        let sorted = sort_strings(data);
        let mut content = join_strings(&sorted, "\n");
        content.append("\n");
        proof {
            reveal_strlit("\n");
            assert("\n"@ =~= seq!['\n']);
            assert(content@ =~= human_render(*self));
        }
        content
    }

    /// The machine-readable projection: one flat JSON object with the
    /// same entries as the human rendering, keys sorted, numeric values
    /// unquoted, no trailing comma.
    pub fn json(&self) -> (r: String)
        ensures
            r@ == json_render(*self),
    {
        let mut data: Vec<String> = Vec::new();
        let ghost cpart = counters_model(self.counters@).map_values(
            |e: EntryModel| json_member(e.name, e.value),
        );
        let ghost gpart = gauges_model(self.gauges@).map_values(
            |e: EntryModel| json_member(e.name, e.value),
        );
        let ghost cppart = pcts_model(self.connect_percentiles@).map_values(
            |p: (Seq<char>, u64)| json_member("connect_latency/"@ + p.0, p.1 as int),
        );
        let ghost rppart = pcts_model(self.request_percentiles@).map_values(
            |p: (Seq<char>, u64)| json_member("response_latency/"@ + p.0, p.1 as int),
        );
        let mut i: usize = 0;
        proof {
            assert(data.deep_view() =~= cpart.take(0));
        }
        while i < self.counters.len()
            invariant
                0 <= i <= self.counters@.len(),
                cpart == counters_model(self.counters@).map_values(
                    |e: EntryModel| json_member(e.name, e.value),
                ),
                data@.len() == i as int,
                str_views(data@) == cpart.take(i as int),
            decreases self.counters@.len() - i,
        {
            let line = json_string_u64(&self.counters[i].0, self.counters[i].1.value);
            let ghost pre = data@;
            data.push(line);
            proof {
                lemma_str_views_push(pre, line);
                assert(str_views(data@) =~= cpart.take(i + 1));
            }
            i = i + 1;
        }
        proof {
            assert(cpart.take(cpart.len() as int) =~= cpart);
        }
        let mut j: usize = 0;
        while j < self.gauges.len()
            invariant
                0 <= j <= self.gauges@.len(),
                cpart == counters_model(self.counters@).map_values(
                    |e: EntryModel| json_member(e.name, e.value),
                ),
                gpart == gauges_model(self.gauges@).map_values(
                    |e: EntryModel| json_member(e.name, e.value),
                ),
                data@.len() == cpart.len() + j as int,
                str_views(data@) == cpart + gpart.take(j as int),
            decreases self.gauges@.len() - j,
        {
            let line = json_string_i64(&self.gauges[j].0, self.gauges[j].1.value);
            let ghost pre = data@;
            data.push(line);
            proof {
                lemma_str_views_push(pre, line);
                assert(str_views(data@) =~= cpart + gpart.take(j + 1));
            }
            j = j + 1;
        }
        proof {
            assert(gpart.take(gpart.len() as int) =~= gpart);
        }
        let mut k: usize = 0;
        while k < self.connect_percentiles.len()
            invariant
                0 <= k <= self.connect_percentiles@.len(),
                cpart == counters_model(self.counters@).map_values(
                    |e: EntryModel| json_member(e.name, e.value),
                ),
                gpart == gauges_model(self.gauges@).map_values(
                    |e: EntryModel| json_member(e.name, e.value),
                ),
                cppart == pcts_model(self.connect_percentiles@).map_values(
                    |p: (Seq<char>, u64)| json_member("connect_latency/"@ + p.0, p.1 as int),
                ),
                data@.len() == cpart.len() + gpart.len() + k as int,
                str_views(data@) == cpart + gpart + cppart.take(k as int),
            decreases self.connect_percentiles@.len() - k,
        {
            let line = json_string_pct(
                "connect_latency/",
                &self.connect_percentiles[k].0,
                self.connect_percentiles[k].1,
            );
            let ghost pre = data@;
            data.push(line);
            proof {
                lemma_str_views_push(pre, line);
                assert(str_views(data@) =~= cpart + gpart + cppart.take(k + 1));
            }
            k = k + 1;
        }
        proof {
            assert(cppart.take(cppart.len() as int) =~= cppart);
        }
        let mut m: usize = 0;
        while m < self.request_percentiles.len()
            invariant
                0 <= m <= self.request_percentiles@.len(),
                cpart == counters_model(self.counters@).map_values(
                    |e: EntryModel| json_member(e.name, e.value),
                ),
                gpart == gauges_model(self.gauges@).map_values(
                    |e: EntryModel| json_member(e.name, e.value),
                ),
                cppart == pcts_model(self.connect_percentiles@).map_values(
                    |p: (Seq<char>, u64)| json_member("connect_latency/"@ + p.0, p.1 as int),
                ),
                rppart == pcts_model(self.request_percentiles@).map_values(
                    |p: (Seq<char>, u64)| json_member("response_latency/"@ + p.0, p.1 as int),
                ),
                data@.len() == cpart.len() + gpart.len() + cppart.len() + m as int,
                str_views(data@) == cpart + gpart + cppart + rppart.take(m as int),
            decreases self.request_percentiles@.len() - m,
        {
            let line = json_string_pct(
                "response_latency/",
                &self.request_percentiles[m].0,
                self.request_percentiles[m].1,
            );
            let ghost pre = data@;
            data.push(line);
            proof {
                lemma_str_views_push(pre, line);
                assert(str_views(data@) =~= cpart + gpart + cppart + rppart.take(m + 1));
            }
            m = m + 1;
        }
        proof {
            assert(rppart.take(rppart.len() as int) =~= rppart);
            lemma_deep_view_is_str_views(&data);
            assert(data.deep_view() == json_lines(*self));
        }
        let sorted = sort_strings(data);
        let body = join_strings(&sorted, ",");
        let mut content = String::from_str("{");
        content.append(body.as_str());
        content.append("}");
        proof {
            reveal_strlit("{");
            reveal_strlit("}");
            reveal_strlit(",");
            assert("{"@ =~= seq!['{']);
            assert("}"@ =~= seq!['}']);
            assert(","@ =~= seq![',']);
            assert(content@ =~= json_render(*self));
        }
        content
    }

    /// The Prometheus exposition projection: per-metric `# TYPE` and
    /// optional `# HELP` lines with a value line, percentiles as a
    /// gauge family with a percentile label, blocks sorted and
    /// newline-joined, and every `/` in the assembled text rewritten to
    /// `_`.
    pub fn prometheus(&self) -> (r: String)
        ensures
            r@ == prom_render(*self),
    {
        let mut data: Vec<String> = Vec::new();
        let ghost cpart = counters_model(self.counters@).map_values(
            |e: EntryModel| prom_block(e.name, e.description, "counter"@, e.value),
        );
        let ghost gpart = gauges_model(self.gauges@).map_values(
            |e: EntryModel| prom_block(e.name, e.description, "gauge"@, e.value),
        );
        let ghost cppart = pcts_model(self.connect_percentiles@).map_values(
            |p: (Seq<char>, u64)| prom_pct_block("connect_latency"@, p.0, p.1 as int),
        );
        let ghost rppart = pcts_model(self.request_percentiles@).map_values(
            |p: (Seq<char>, u64)| prom_pct_block("response_latency"@, p.0, p.1 as int),
        );
        let mut i: usize = 0;
        proof {
            assert(data.deep_view() =~= cpart.take(0));
        }
        while i < self.counters.len()
            invariant
                0 <= i <= self.counters@.len(),
                cpart == counters_model(self.counters@).map_values(
                    |e: EntryModel| prom_block(e.name, e.description, "counter"@, e.value),
                ),
                data@.len() == i as int,
                str_views(data@) == cpart.take(i as int),
            decreases self.counters@.len() - i,
        {
            let line = prom_string_u64(
                &self.counters[i].0,
                &self.counters[i].1.description,
                self.counters[i].1.value,
            );
            let ghost pre = data@;
            data.push(line);
            proof {
                lemma_str_views_push(pre, line);
                assert(str_views(data@) =~= cpart.take(i + 1));
            }
            i = i + 1;
        }
        proof {
            assert(cpart.take(cpart.len() as int) =~= cpart);
        }
        let mut j: usize = 0;
        while j < self.gauges.len()
            invariant
                0 <= j <= self.gauges@.len(),
                cpart == counters_model(self.counters@).map_values(
                    |e: EntryModel| prom_block(e.name, e.description, "counter"@, e.value),
                ),
                gpart == gauges_model(self.gauges@).map_values(
                    |e: EntryModel| prom_block(e.name, e.description, "gauge"@, e.value),
                ),
                data@.len() == cpart.len() + j as int,
                str_views(data@) == cpart + gpart.take(j as int),
            decreases self.gauges@.len() - j,
        {
            let line = prom_string_i64(
                &self.gauges[j].0,
                &self.gauges[j].1.description,
                self.gauges[j].1.value,
            );
            let ghost pre = data@;
            data.push(line);
            proof {
                lemma_str_views_push(pre, line);
                assert(str_views(data@) =~= cpart + gpart.take(j + 1));
            }
            j = j + 1;
        }
        proof {
            assert(gpart.take(gpart.len() as int) =~= gpart);
        }
        let mut k: usize = 0;
        while k < self.connect_percentiles.len()
            invariant
                0 <= k <= self.connect_percentiles@.len(),
                cpart == counters_model(self.counters@).map_values(
                    |e: EntryModel| prom_block(e.name, e.description, "counter"@, e.value),
                ),
                gpart == gauges_model(self.gauges@).map_values(
                    |e: EntryModel| prom_block(e.name, e.description, "gauge"@, e.value),
                ),
                cppart == pcts_model(self.connect_percentiles@).map_values(
                    |p: (Seq<char>, u64)| prom_pct_block("connect_latency"@, p.0, p.1 as int),
                ),
                data@.len() == cpart.len() + gpart.len() + k as int,
                str_views(data@) == cpart + gpart + cppart.take(k as int),
            decreases self.connect_percentiles@.len() - k,
        {
            let line = prom_string_pct(
                "connect_latency",
                &self.connect_percentiles[k].0,
                self.connect_percentiles[k].1,
            );
            let ghost pre = data@;
            data.push(line);
            proof {
                lemma_str_views_push(pre, line);
                assert(str_views(data@) =~= cpart + gpart + cppart.take(k + 1));
            }
            k = k + 1;
        }
        proof {
            assert(cppart.take(cppart.len() as int) =~= cppart);
        }
        let mut m: usize = 0;
        while m < self.request_percentiles.len()
            invariant
                0 <= m <= self.request_percentiles@.len(),
                cpart == counters_model(self.counters@).map_values(
                    |e: EntryModel| prom_block(e.name, e.description, "counter"@, e.value),
                ),
                gpart == gauges_model(self.gauges@).map_values(
                    |e: EntryModel| prom_block(e.name, e.description, "gauge"@, e.value),
                ),
                cppart == pcts_model(self.connect_percentiles@).map_values(
                    |p: (Seq<char>, u64)| prom_pct_block("connect_latency"@, p.0, p.1 as int),
                ),
                rppart == pcts_model(self.request_percentiles@).map_values(
                    |p: (Seq<char>, u64)| prom_pct_block("response_latency"@, p.0, p.1 as int),
                ),
                data@.len() == cpart.len() + gpart.len() + cppart.len() + m as int,
                str_views(data@) == cpart + gpart + cppart + rppart.take(m as int),
            decreases self.request_percentiles@.len() - m,
        {
            let line = prom_string_pct(
                "response_latency",
                &self.request_percentiles[m].0,
                self.request_percentiles[m].1,
            );
            let ghost pre = data@;
            data.push(line);
            proof {
                lemma_str_views_push(pre, line);
                assert(str_views(data@) =~= cpart + gpart + cppart + rppart.take(m + 1));
            }
            m = m + 1;
        }
        proof {
            assert(rppart.take(rppart.len() as int) =~= rppart);
            lemma_deep_view_is_str_views(&data);
            assert(data.deep_view() == prom_blocks(*self));
        }
        let sorted = sort_strings(data);
        let mut content = join_strings(&sorted, "\n");
        content.append("\n");
        proof {
            reveal_strlit("\n");
            assert("\n"@ =~= seq!['\n']);
        }
        let replaced = replace_slashes(content.as_str());
        proof {
            assert(content@ =~= join_lines(sort_lex(prom_blocks(*self)), seq!['\n']) + seq![
                '\n',
            ]);
        }
        replaced
    }
}

} // verus!
