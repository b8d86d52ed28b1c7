//! The keyspace model: named sets of keys with generation policies, TTL,
//! and weighted verbs, plus the configuration that groups them.
//!
//! A keyspace is constructed once from configuration, immutable
//! thereafter, and consumed by the codec to synthesize requests. Verbs
//! and keyspaces are selected by non-negative weights; at least one
//! weight must be positive.

use vstd::prelude::*;

use crate::num::dec_bytes;

verus! {

/// The verbs a request can carry, a closed enumeration for this
/// protocol family.
#[derive(Clone, Copy, Debug, PartialEq, Eq, Structural)]
pub enum Verb {
    Get,
    Store,
    Delete,
    Hget,
    Hset,
    Hsetnx,
}

/// One verb with its selection weight within a keyspace.
#[derive(Clone, Copy, Debug, PartialEq, Eq, Structural)]
pub struct Command {
    pub verb: Verb,
    pub weight: u64,
}

impl Command {
    /// The verb this command issues.
    pub fn verb(&self) -> (v: Verb)
        ensures
            v == self.verb,
    {
        self.verb
    }
}

/// Sum of a weight sequence.
pub open spec fn total_weight(ws: Seq<u64>) -> int
    decreases ws.len(),
{
    if ws.len() == 0 {
        0
    } else {
        ws[0] + total_weight(ws.drop_first())
    }
}

/// The index selected by a draw `t` below the total weight: the first
/// index whose cumulative weight exceeds `t`.
pub open spec fn weighted_pick(ws: Seq<u64>, t: int) -> int
    decreases ws.len(),
{
    if ws.len() == 0 {
        0
    } else if t < ws[0] {
        0
    } else {
        1 + weighted_pick(ws.drop_first(), t - ws[0])
    }
}

/// A draw below the total lands on an index in range whose weight is
/// positive.
pub proof fn lemma_weighted_pick_in_range(ws: Seq<u64>, t: int)
    requires
        0 <= t < total_weight(ws),
    ensures
        0 <= weighted_pick(ws, t) < ws.len(),
        ws[weighted_pick(ws, t)] > 0,
    decreases ws.len(),
{
    if ws.len() == 0 {
    } else if t < ws[0] {
    } else {
        lemma_weighted_pick_in_range(ws.drop_first(), t - ws[0]);
    }
}

/// Total weight is non-negative.
pub proof fn lemma_total_weight_nonneg(ws: Seq<u64>)
    ensures
        total_weight(ws) >= 0,
    decreases ws.len(),
{
    if ws.len() > 0 {
        lemma_total_weight_nonneg(ws.drop_first());
    }
}

/// Unfolds the total of a suffix by one element.
proof fn lemma_total_weight_skip(ws: Seq<u64>, i: int)
    requires
        0 <= i < ws.len(),
    ensures
        total_weight(ws.skip(i)) == ws[i] + total_weight(ws.skip(i + 1)),
{
    assert(ws.skip(i).drop_first() =~= ws.skip(i + 1));
    assert(ws.skip(i)[0] == ws[i]);
}

/// Unfolds the pick within a suffix by one element.
proof fn lemma_weighted_pick_skip(ws: Seq<u64>, i: int, rem: int)
    requires
        0 <= i < ws.len(),
        rem >= ws[i],
    ensures
        weighted_pick(ws.skip(i), rem) == 1 + weighted_pick(ws.skip(i + 1), rem - ws[i]),
{
    assert(ws.skip(i).drop_first() =~= ws.skip(i + 1));
    assert(ws.skip(i)[0] == ws[i]);
}

/// Selects the index that the draw `t` falls on, walking the cumulative
/// weights.
pub fn pick_index(ws: &Vec<u64>, t: u64) -> (i: usize)
    requires
        t < total_weight(ws@),
    ensures
        i as int == weighted_pick(ws@, t as int),
        i < ws@.len(),
        ws@[i as int] > 0,
{
    proof {
        lemma_weighted_pick_in_range(ws@, t as int);
        assert(ws@.skip(0) =~= ws@);
    }
    let len = ws.len();
    let mut i: usize = 0;
    let mut rem: u64 = t;
    while rem >= ws[i]
        invariant
            len == ws@.len(),
            0 <= i < ws@.len(),
            0 <= rem <= t,
            weighted_pick(ws@, t as int) == i + weighted_pick(ws@.skip(i as int), rem as int),
            rem < total_weight(ws@.skip(i as int)),
        decreases ws@.len() - i,
    {
        proof {
            lemma_total_weight_skip(ws@, i as int);
            lemma_weighted_pick_skip(ws@, i as int, rem as int);
            lemma_total_weight_nonneg(ws@.skip(i as int + 1));
            assert(total_weight(ws@.skip(i as int + 1)) > 0);
            lemma_weighted_pick_in_range(ws@.skip(i as int + 1), rem - ws@[i as int]);
            assert(ws@.skip(i as int + 1).len() > 0);
        }
        rem = rem - ws[i];
        i = i + 1;
    }
    proof {
        assert(weighted_pick(ws@.skip(i as int), rem as int) == 0);
    }
    i
}

/// A named generator of keys, fields, and values with weighted verbs.
pub struct Keyspace {
    /// Selection weight among all keyspaces.
    pub weight: u64,
    /// TTL in seconds attached to stores; zero means none.
    pub ttl: u64,
    /// The verbs issued against this keyspace, with their weights.
    pub commands: Vec<Command>,
    /// How many distinct keys the key policy generates.
    pub key_count: u64,
    /// How many distinct inner keys (hash fields); none for plain types.
    pub inner_key_count: Option<u64>,
    /// Length of generated values; none for verbs that carry no value.
    pub value_len: Option<usize>,
}

/// The command weights of a keyspace.
pub open spec fn command_weights(cs: Seq<Command>) -> Seq<u64> {
    cs.map_values(|c: Command| c.weight)
}

impl Keyspace {
    /// Verb weights are non-negative by type; at least one verb must be
    /// selectable, key generation needs a non-empty key space, and the
    /// weight total must be representable.
    pub open spec fn wf(&self) -> bool {
        &&& self.key_count >= 1
        &&& 0 < total_weight(command_weights(self.commands@)) <= u64::MAX
        &&& match self.inner_key_count {
            Option::Some(c) => c >= 1,
            Option::None => true,
        }
    }

    /// The command the draw `t` selects.
    pub open spec fn chosen_command(&self, t: u64) -> Command {
        self.commands@[weighted_pick(
            command_weights(self.commands@),
            t as int % total_weight(command_weights(self.commands@)),
        )]
    }

    /// Selects a command by configured weights from the draw `t`.
    pub fn choose_command(&self, t: u64) -> (c: Command)
        requires
            self.wf(),
        ensures
            c == self.chosen_command(t),
            c.weight > 0,
    {
        let mut ws: Vec<u64> = Vec::new();
        let mut j: usize = 0;
        while j < self.commands.len()
            invariant
                0 <= j <= self.commands@.len(),
                ws@ =~= command_weights(self.commands@).take(j as int),
            decreases self.commands@.len() - j,
        {
            ws.push(self.commands[j].weight);
            proof {
                assert(ws@ =~= command_weights(self.commands@).take(j + 1));
            }
            j = j + 1;
        }
        proof {
            assert(ws@ =~= command_weights(self.commands@));
        }
        let total = sum_weights(&ws);
        let t_mod = t % total;
        let i = pick_index(&ws, t_mod);
        proof {
            lemma_weighted_pick_in_range(ws@, t_mod as int);
        }
        self.commands[i]
    }

    /// The key bytes generated from the draw `r`: the decimal name of a
    /// key index below `key_count`.
    pub open spec fn key_bytes(&self, r: u64) -> Seq<u8> {
        dec_bytes(r as int % self.key_count as int)
    }

    /// The inner-key bytes generated from the draw `r`, or empty when
    /// the keyspace has no inner keys.
    pub open spec fn inner_key_bytes(&self, r: u64) -> Seq<u8> {
        match self.inner_key_count {
            Option::Some(c) => dec_bytes(r as int % c as int),
            Option::None => Seq::<u8>::empty(),
        }
    }

    /// The value bytes generated from the draw `r`: a run of one
    /// lowercase letter of the configured length, or empty when the
    /// keyspace generates no values.
    pub open spec fn value_bytes(&self, r: u64) -> Seq<u8> {
        match self.value_len {
            Option::Some(l) => Seq::<u8>::new(l as nat, |i: int| (97 + r % 26) as u8),
            Option::None => Seq::<u8>::empty(),
        }
    }

    /// Generates the concrete key for one request.
    pub fn generate_key(&self, r: u64) -> (k: Vec<u8>)
        requires
            self.key_count >= 1,
        ensures
            k@ == self.key_bytes(r),
    {
        let mut k: Vec<u8> = Vec::new();
        crate::num::append_u64_bytes(&mut k, r % self.key_count);
        proof {
            assert(k@ =~= self.key_bytes(r));
        }
        k
    }

    /// Generates the concrete inner key (hash field) for one request,
    /// when the keyspace has inner keys.
    pub fn generate_inner_key(&self, r: u64) -> (k: Option<Vec<u8>>)
        requires
            self.wf(),
        ensures
            k is Some <==> self.inner_key_count is Some,
            k matches Some(v) ==> v@ == self.inner_key_bytes(r),
    {
        match self.inner_key_count {
            Some(c) => {
                let mut k: Vec<u8> = Vec::new();
                crate::num::append_u64_bytes(&mut k, r % c);
                proof {
                    assert(k@ =~= self.inner_key_bytes(r));
                }
                Some(k)
            },
            None => None,
        }
    }

    /// Generates the concrete value bytes for one request, when the
    /// keyspace generates values.
    pub fn generate_value(&self, r: u64) -> (v: Option<Vec<u8>>)
        ensures
            v is Some <==> self.value_len is Some,
            v matches Some(b) ==> b@ == self.value_bytes(r),
    {
        match self.value_len {
            Some(l) => {
                let fill: u8 = 97 + (r % 26) as u8;
                let v = vec![fill; l];
                proof {
                    assert(v@ =~= self.value_bytes(r));
                }
                Some(v)
            },
            None => None,
        }
    }

    /// TTL in seconds; zero means stores carry no expiry.
    pub fn ttl(&self) -> (t: u64)
        ensures
            t == self.ttl,
    {
        self.ttl
    }
}

/// Sums a weight vector.
pub fn sum_weights(ws: &Vec<u64>) -> (s: u64)
    requires
        total_weight(ws@) <= u64::MAX,
    ensures
        s as int == total_weight(ws@),
{
    proof {
        assert(ws@.skip(0) =~= ws@);
    }
    let mut s: u64 = 0;
    let mut i: usize = 0;
    while i < ws.len()
        invariant
            0 <= i <= ws@.len(),
            total_weight(ws@) <= u64::MAX,
            s + total_weight(ws@.skip(i as int)) == total_weight(ws@),
            s >= 0,
        decreases ws@.len() - i,
    {
        proof {
            lemma_total_weight_skip(ws@, i as int);
            lemma_total_weight_nonneg(ws@.skip(i as int + 1));
        }
        s = s + ws[i];
        i = i + 1;
    }
    proof {
        assert(ws@.skip(i as int) =~= Seq::<u64>::empty());
    }
    s
}

/// Which wire protocol the harness speaks.
#[derive(Clone, Copy, Debug, PartialEq, Eq, Structural)]
pub enum Protocol {
    /// The Redis protocol in its inline request form.
    Redis,
    /// Explicitly inline request framing.
    RedisInline,
    /// RESP multibulk request framing.
    RedisResp,
}

/// The immutable run configuration the codec reads: the protocol, the
/// reporting interval, an optional maximum window count, and the
/// keyspaces traffic is synthesized from.
pub struct Config {
    pub protocol: Protocol,
    pub interval_ms: u64,
    pub windows: Option<u64>,
    pub keyspaces: Vec<Keyspace>,
}

/// The keyspace weights of a configuration.
pub open spec fn keyspace_weights(ks: Seq<Keyspace>) -> Seq<u64> {
    ks.map_values(|k: Keyspace| k.weight)
}

impl Config {
    /// Every keyspace is well formed, and one of them is selectable.
    pub open spec fn wf(&self) -> bool {
        &&& self.keyspaces@.len() >= 1
        &&& forall|i: int|
            0 <= i < self.keyspaces@.len() ==> (#[trigger] self.keyspaces@[i]).wf()
        &&& 0 < total_weight(keyspace_weights(self.keyspaces@)) <= u64::MAX
    }

    /// The index of the keyspace the draw `t` selects.
    pub open spec fn chosen_keyspace(&self, t: u64) -> int {
        weighted_pick(
            keyspace_weights(self.keyspaces@),
            t as int % total_weight(keyspace_weights(self.keyspaces@)),
        )
    }

    /// Selects a keyspace by configured weights from the draw `t`.
    pub fn choose_keyspace(&self, t: u64) -> (i: usize)
        requires
            self.wf(),
        ensures
            i as int == self.chosen_keyspace(t),
            i < self.keyspaces@.len(),
            self.keyspaces@[i as int].weight > 0,
    {
        let mut ws: Vec<u64> = Vec::new();
        let mut j: usize = 0;
        while j < self.keyspaces.len()
            invariant
                0 <= j <= self.keyspaces@.len(),
                ws@ =~= keyspace_weights(self.keyspaces@).take(j as int),
            decreases self.keyspaces@.len() - j,
        {
            ws.push(self.keyspaces[j].weight);
            proof {
                assert(ws@ =~= keyspace_weights(self.keyspaces@).take(j + 1));
            }
            j = j + 1;
        }
        proof {
            assert(ws@ =~= keyspace_weights(self.keyspaces@));
        }
        let total = sum_weights(&ws);
        let t_mod = t % total;
        pick_index(&ws, t_mod)
    }
}

} // verus!
