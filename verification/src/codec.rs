//! The Redis-family protocol codec.
//!
//! Responses always arrive in RESP framing regardless of the request
//! mode, so decoding dispatches on the first byte of the unconsumed
//! buffer. Completeness is judged solely by a trailing CRLF before any
//! structural validation; a payload that itself contains a CRLF sequence
//! can therefore be judged complete early. That is a deliberate,
//! preserved simplification of this protocol family.

use vstd::prelude::*;

use crate::keyspace::{Command, Config, Keyspace, Protocol, Verb};
use crate::metrics::{bump, Metrics};
use crate::num::{
    append_u64_bytes, dec_bytes, is_i64_dec, is_unsigned_dec, is_valid_i64_dec, parse_u64_dec,
    unsigned_dec_val,
};
use crate::session::Session;
use vstd::string::StringSliceAdditionalSpecFns;
use vstd::utf8::valid_utf8;

verus! {

/// Outcome classification for one attempt to parse a response frame.
#[derive(Clone, Copy, Debug, PartialEq, Eq, Structural)]
pub enum ParseError {
    /// Not enough bytes for a complete frame; read more and retry.
    Incomplete,
    /// The peer returned a protocol-level error reply.
    Error,
    /// Frame-shaped bytes that violate the grammar, or an unimplemented
    /// frame shape such as a non-null array reply.
    Unknown,
}

/// What one decode attempt does to the session: its returned
/// classification, how many bytes of the incoming buffer it consumes,
/// and whether it counts a cache hit.
pub struct DecodeStep {
    pub result: Result<(), ParseError>,
    pub consumed: int,
    pub hit: bool,
}

/// The buffer ends with a CRLF pair; only then is a parse attempted.
pub open spec fn ends_with_crlf(buf: Seq<u8>) -> bool {
    buf.len() >= 2 && buf[buf.len() - 2] == 13 && buf[buf.len() - 1] == 10
}

/// The frame payload: everything between the lead byte and the trailing
/// CRLF.
pub open spec fn frame_msg(buf: Seq<u8>) -> Seq<u8>
    recommends
        buf.len() >= 3,
{
    buf.subrange(1, buf.len() - 2)
}

/// Index of the first line feed, or the length when none occurs.
pub open spec fn first_lf(s: Seq<u8>) -> int
    decreases s.len(),
{
    if s.len() == 0 {
        0
    } else if s[0] == 10 {
        0
    } else {
        1 + first_lf(s.drop_first())
    }
}

/// The first line of the buffer: bytes before the first line feed, with
/// a carriage return directly before it stripped.
pub open spec fn header_line(buf: Seq<u8>) -> Seq<u8> {
    let l = buf.subrange(0, first_lf(buf));
    if l.len() > 0 && l.last() == 13 {
        l.drop_last()
    } else {
        l
    }
}

/// The declared-length digits of a bulk-string header: the first line
/// with its `$` lead byte removed.
pub open spec fn bulk_digits(buf: Seq<u8>) -> Seq<u8> {
    header_line(buf).drop_first()
}

/// A decode attempt that leaves the buffer untouched.
pub open spec fn untouched(result: Result<(), ParseError>) -> DecodeStep {
    DecodeStep { result, consumed: 0, hit: false }
}

/// A decode attempt that recognizes one frame and consumes the whole
/// buffer.
pub open spec fn consume_all(buf: Seq<u8>, hit: bool) -> DecodeStep {
    DecodeStep { result: Ok(()), consumed: buf.len() as int, hit }
}

/// What decoding the unconsumed buffer does, byte for byte.
///
/// A buffer not ending in CRLF is always incomplete, before any lead
/// byte dispatch. Then: `+` accepts exactly `OK` and `PONG`; `-` is a
/// peer-reported error; `:` accepts a signed 64-bit decimal payload; `$`
/// distinguishes a `-1` miss, a declared-length comparison (fewer bytes
/// available: incomplete; equal: a consumed hit; more: a desync error),
/// and malformed headers; `*` accepts only the `-1` null array; every
/// other lead byte is unknown.
pub open spec fn decode_model(buf: Seq<u8>) -> DecodeStep {
    if !ends_with_crlf(buf) {
        untouched(Err(ParseError::Incomplete))
    } else if buf[0] == 43 {
        if buf.len() < 5 {
            untouched(Err(ParseError::Incomplete))
        } else if frame_msg(buf) == seq![79u8, 75u8] || frame_msg(buf) == seq![
            80u8,
            79u8,
            78u8,
            71u8,
        ] {
            consume_all(buf, false)
        } else {
            untouched(Err(ParseError::Unknown))
        }
    } else if buf[0] == 45 {
        untouched(Err(ParseError::Error))
    } else if buf[0] == 58 {
        if is_i64_dec(frame_msg(buf)) {
            consume_all(buf, false)
        } else {
            untouched(Err(ParseError::Unknown))
        }
    } else if buf[0] == 36 {
        if frame_msg(buf) == seq![45u8, 49u8] {
            consume_all(buf, false)
        } else if !valid_utf8(frame_msg(buf)) {
            untouched(Err(ParseError::Unknown))
        } else {
            if is_unsigned_dec(bulk_digits(buf), usize::MAX as int) {
                let expected = unsigned_dec_val(bulk_digits(buf));
                let have = buf.len() - bulk_digits(buf).len() - 5;
                if have < expected {
                    untouched(Err(ParseError::Incomplete))
                } else if have == expected {
                    consume_all(buf, true)
                } else {
                    untouched(Err(ParseError::Error))
                }
            } else {
                untouched(Err(ParseError::Unknown))
            }
        }
    } else if buf[0] == 42 {
        if frame_msg(buf) == seq![45u8, 49u8] {
            consume_all(buf, false)
        } else {
            untouched(Err(ParseError::Unknown))
        }
    } else {
        untouched(Err(ParseError::Unknown))
    }
}

/// Relies on str::from_utf8: it returns `Ok` exactly when the byte slice
/// is a valid UTF-8 encoding, which vstd's `valid_utf8` defines.
#[verifier::external_body]
fn bytes_are_utf8(b: &[u8]) -> (r: bool)
    ensures
        r == valid_utf8(b@),
{
    core::str::from_utf8(b).is_ok()
}

/// A found line-feed position with no earlier line feed pins down
/// `first_lf`.
pub proof fn lemma_first_lf_at(s: Seq<u8>, p: int)
    requires
        0 <= p <= s.len(),
        forall|k: int| 0 <= k < p ==> s[k] != 10,
        p < s.len() ==> s[p] == 10,
    ensures
        first_lf(s) == p,
    decreases p,
{
    if p == 0 {
    } else {
        assert(s[0] != 10);
        let t = s.drop_first();
        assert forall|k: int| 0 <= k < p - 1 implies t[k] != 10 by {
            assert(t[k] == s[k + 1]);
        }
        if p - 1 < t.len() {
            assert(t[p - 1] == s[p]);
        }
        lemma_first_lf_at(t, p - 1);
    }
}

/// Where `first_lf` points: at a line feed, past only non-line-feeds.
pub proof fn lemma_first_lf_props(s: Seq<u8>)
    ensures
        0 <= first_lf(s) <= s.len(),
        forall|k: int| 0 <= k < first_lf(s) ==> s[k] != 10,
        first_lf(s) < s.len() ==> s[first_lf(s)] == 10,
    decreases s.len(),
{
    if s.len() > 0 && s[0] != 10 {
        let t = s.drop_first();
        lemma_first_lf_props(t);
        assert forall|k: int| 0 <= k < first_lf(s) implies s[k] != 10 by {
            if k > 0 {
                assert(t[k - 1] == s[k]);
            }
        }
        if first_lf(s) < s.len() {
            assert(t[first_lf(t)] == s[first_lf(s)]);
        }
    }
}

/// Classifies the buffer and reports what to consume and whether the
/// frame is a cache hit.
fn classify(buf: &[u8]) -> (r: (Result<(), ParseError>, usize, bool))
    ensures
        r.0 == decode_model(buf@).result,
        r.1 as int == decode_model(buf@).consumed,
        r.2 == decode_model(buf@).hit,
{
    let n = buf.len();
    if n < 2 || buf[n - 2] != 13 || buf[n - 1] != 10 {
        return (Err(ParseError::Incomplete), 0, false);
    }
    let first = buf[0];
    if first == 43 {
        if n < 5 {
            return (Err(ParseError::Incomplete), 0, false);
        }
        let msg = &buf[1..n - 2];
        let is_ok = msg.len() == 2 && msg[0] == 79 && msg[1] == 75;
        let is_pong = msg.len() == 4 && msg[0] == 80 && msg[1] == 79 && msg[2] == 78 && msg[3]
            == 71;
        proof {
            if msg@.len() == 2 {
                assert(msg@ == seq![79u8, 75u8] <==> msg@[0] == 79 && msg@[1] == 75) by {
                    if msg@[0] == 79 && msg@[1] == 75 {
                        assert(msg@ =~= seq![79u8, 75u8]);
                    }
                }
            }
            if msg@.len() == 4 {
                assert(msg@ == seq![80u8, 79u8, 78u8, 71u8] <==> msg@[0] == 80 && msg@[1] == 79
                    && msg@[2] == 78 && msg@[3] == 71) by {
                    if msg@[0] == 80 && msg@[1] == 79 && msg@[2] == 78 && msg@[3] == 71 {
                        assert(msg@ =~= seq![80u8, 79u8, 78u8, 71u8]);
                    }
                }
            }
        }
        if is_ok || is_pong {
            (Ok(()), n, false)
        } else {
            (Err(ParseError::Unknown), 0, false)
        }
    } else if first == 45 {
        (Err(ParseError::Error), 0, false)
    } else if first == 58 {
        let msg = &buf[1..n - 2];
        if is_valid_i64_dec(msg) {
            (Ok(()), n, false)
        } else {
            (Err(ParseError::Unknown), 0, false)
        }
    } else if first == 36 {
        let msg = &buf[1..n - 2];
        let is_miss = msg.len() == 2 && msg[0] == 45 && msg[1] == 49;
        proof {
            if msg@.len() == 2 {
                assert(msg@ == seq![45u8, 49u8] <==> msg@[0] == 45 && msg@[1] == 49) by {
                    if msg@[0] == 45 && msg@[1] == 49 {
                        assert(msg@ =~= seq![45u8, 49u8]);
                    }
                }
            }
        }
        if is_miss {
            return (Ok(()), n, false);
        }
        if !bytes_are_utf8(msg) {
            return (Err(ParseError::Unknown), 0, false);
        }
        // Find the end of the declared-length header line.
        let mut p: usize = 0;
        while buf[p] != 10
            invariant
                n == buf@.len(),
                n >= 2,
                buf@[n - 1] == 10,
                0 <= p < n,
                forall|k: int| 0 <= k < p ==> buf@[k] != 10,
            decreases n - p,
        {
            p = p + 1;
        }
        proof {
            lemma_first_lf_at(buf@, p as int);
        }
        let line_end: usize = if p > 0 && buf[p - 1] == 13 {
            p - 1
        } else {
            p
        };
        let ghost hl = header_line(buf@);
        proof {
            if p > 0 && buf@[p - 1] == 13 {
                assert(hl =~= buf@.subrange(0, line_end as int));
            } else {
                assert(hl =~= buf@.subrange(0, line_end as int));
            }
        }
        proof {
            assert(buf@[0] == 36);
            assert(line_end >= 1);
        }
        let digits = &buf[1..line_end];
        proof {
            assert(digits@ =~= bulk_digits(buf@));
        }
        match parse_u64_dec(digits) {
            Some(v) => {
                if v <= (usize::MAX as u64) {
                    let expected = v as usize;
                    let need: u128 = (digits.len() as u128) + 5 + (expected as u128);
                    let total: u128 = n as u128;
                    if total < need {
                        (Err(ParseError::Incomplete), 0, false)
                    } else if total == need {
                        (Ok(()), n, true)
                    } else {
                        (Err(ParseError::Error), 0, false)
                    }
                } else {
                    (Err(ParseError::Unknown), 0, false)
                }
            },
            None => (Err(ParseError::Unknown), 0, false),
        }
    } else if first == 42 {
        let msg = &buf[1..n - 2];
        let is_null = msg.len() == 2 && msg[0] == 45 && msg[1] == 49;
        proof {
            if msg@.len() == 2 {
                assert(msg@ == seq![45u8, 49u8] <==> msg@[0] == 45 && msg@[1] == 49) by {
                    if msg@[0] == 45 && msg@[1] == 49 {
                        assert(msg@ =~= seq![45u8, 49u8]);
                    }
                }
            }
        }
        if is_null {
            (Ok(()), n, false)
        } else {
            (Err(ParseError::Unknown), 0, false)
        }
    } else {
        (Err(ParseError::Unknown), 0, false)
    }
}

/// Request serialization framing: space-separated inline commands, or
/// RESP multibulk.
#[derive(Clone, Copy, Debug, PartialEq, Eq, Structural)]
pub enum Mode {
    Inline,
    Resp,
}

/// Relies on rand's `SmallRng`: an opaque small pseudorandom number
/// generator carried by the codec between draws.
#[verifier::external_type_specification]
#[verifier::external_body]
pub struct ExSmallRng(rand::rngs::SmallRng);

/// Relies on `SeedableRng::from_entropy` for `SmallRng`: seeds a fresh
/// generator from the operating system's entropy source.
#[verifier::external_body]
fn rng_from_entropy() -> rand::rngs::SmallRng {
    <rand::rngs::SmallRng as rand::SeedableRng>::from_entropy()
}

/// Relies on `RngCore::next_u64` for `SmallRng`: one pseudorandom draw.
/// Nothing is promised of the value.
#[verifier::external_body]
fn rng_next(rng: &mut rand::rngs::SmallRng) -> u64 {
    rand::RngCore::next_u64(rng)
}

/// Space-separated arguments of an inline request.
pub open spec fn space_join(args: Seq<Seq<u8>>) -> Seq<u8>
    decreases args.len(),
{
    if args.len() == 0 {
        Seq::<u8>::empty()
    } else {
        seq![32u8] + args[0] + space_join(args.drop_first())
    }
}

/// An inline request frame: the command word, each argument after one
/// space, then CRLF.
pub open spec fn inline_frame(cmd: Seq<u8>, args: Seq<Seq<u8>>) -> Seq<u8> {
    cmd + space_join(args) + seq![13u8, 10u8]
}

/// The per-argument tail of a RESP multibulk frame: CRLF, a `$`-prefixed
/// length header, CRLF, then the argument bytes.
pub open spec fn resp_args(args: Seq<Seq<u8>>) -> Seq<u8>
    decreases args.len(),
{
    if args.len() == 0 {
        Seq::<u8>::empty()
    } else {
        seq![13u8, 10u8, 36u8] + dec_bytes(args[0].len() as int) + seq![13u8, 10u8] + args[0]
            + resp_args(args.drop_first())
    }
}

/// A RESP multibulk request frame.
pub open spec fn resp_frame(cmd: Seq<u8>, args: Seq<Seq<u8>>) -> Seq<u8> {
    seq![42u8] + dec_bytes(args.len() as int + 1) + seq![13u8, 10u8, 36u8] + dec_bytes(cmd.len() as int)
        + seq![13u8, 10u8] + cmd + resp_args(args) + seq![13u8, 10u8]
}

/// The request frame for one command in the given wire mode.
pub open spec fn frame_bytes(mode: Mode, cmd: Seq<u8>, args: Seq<Seq<u8>>) -> Seq<u8> {
    match mode {
        Mode::Inline => inline_frame(cmd, args),
        Mode::Resp => resp_frame(cmd, args),
    }
}

/// Appending an argument extends the inline join on the right.
proof fn lemma_space_join_push(args: Seq<Seq<u8>>, x: Seq<u8>)
    ensures
        space_join(args.push(x)) == space_join(args) + seq![32u8] + x,
    decreases args.len(),
{
    let p = args.push(x);
    if args.len() == 0 {
        assert(p[0] == x);
        assert(p.drop_first() =~= Seq::<Seq<u8>>::empty());
        assert(space_join(p) == seq![32u8] + p[0] + space_join(p.drop_first()));
        assert(space_join(p) =~= space_join(args) + seq![32u8] + x);
    } else {
        assert(p[0] == args[0]);
        assert(p.drop_first() =~= args.drop_first().push(x));
        lemma_space_join_push(args.drop_first(), x);
        assert(space_join(p) == seq![32u8] + args[0] + (space_join(args.drop_first()) + seq![32u8]
            + x));
        assert(space_join(p) =~= space_join(args) + seq![32u8] + x);
    }
}

/// Appending an argument extends the RESP tail on the right.
proof fn lemma_resp_args_push(args: Seq<Seq<u8>>, x: Seq<u8>)
    ensures
        resp_args(args.push(x)) == resp_args(args) + (seq![13u8, 10u8, 36u8] + dec_bytes(
            x.len() as int,
        ) + seq![13u8, 10u8] + x),
    decreases args.len(),
{
    let p = args.push(x);
    let tail = seq![13u8, 10u8, 36u8] + dec_bytes(x.len() as int) + seq![13u8, 10u8] + x;
    if args.len() == 0 {
        assert(p[0] == x);
        assert(p.drop_first() =~= Seq::<Seq<u8>>::empty());
        assert(resp_args(p) == seq![13u8, 10u8, 36u8] + dec_bytes(p[0].len() as int) + seq![
            13u8,
            10u8,
        ] + p[0] + resp_args(p.drop_first()));
        assert(resp_args(p) =~= resp_args(args) + tail);
    } else {
        assert(p[0] == args[0]);
        assert(p.drop_first() =~= args.drop_first().push(x));
        lemma_resp_args_push(args.drop_first(), x);
        assert(resp_args(p) == seq![13u8, 10u8, 36u8] + dec_bytes(args[0].len() as int) + seq![
            13u8,
            10u8,
        ] + args[0] + (resp_args(args.drop_first()) + tail));
        assert(resp_args(p) =~= resp_args(args) + tail);
    }
}

/// Serializes one complete request frame for the command word and its
/// arguments into the session's outgoing buffer.
fn write_command(session: &mut Session, mode: Mode, command: &str, args: &Vec<Vec<u8>>)
    requires
        args@.len() < 8,
    ensures
        final(session)@.tx == old(session)@.tx + frame_bytes(
            mode,
            command.spec_bytes(),
            args.deep_view(),
        ),
        final(session)@.rx == old(session)@.rx,
{
    let mut out: Vec<u8> = Vec::new();
    match mode {
        Mode::Inline => {
            out.extend_from_slice(command.as_bytes());
            let mut i: usize = 0;
            while i < args.len()
                invariant
                    0 <= i <= args@.len(),
                    out@ == command.spec_bytes() + space_join(args.deep_view().take(i as int)),
                decreases args@.len() - i,
            {
                out.push(32);
                out.extend_from_slice(args[i].as_slice());
                proof {
                    assert(args.deep_view().take(i + 1) =~= args.deep_view().take(i as int).push(
                        args.deep_view()[i as int],
                    ));
                    lemma_space_join_push(args.deep_view().take(i as int), args.deep_view()[i as int]);
                    assert(args.deep_view()[i as int] =~= args@[i as int]@);
                }
                i = i + 1;
            }
            out.push(13);
            out.push(10);
            proof {
                assert(args.deep_view().take(args.deep_view().len() as int) =~= args.deep_view());
                assert(out@ =~= inline_frame(command.spec_bytes(), args.deep_view()));
            }
        },
        Mode::Resp => {
            out.push(42);
            append_u64_bytes(&mut out, (args.len() as u64) + 1);
            out.push(13);
            out.push(10);
            out.push(36);
            let cb = command.as_bytes();
            append_u64_bytes(&mut out, cb.len() as u64);
            out.push(13);
            out.push(10);
            out.extend_from_slice(cb);
            let ghost head = seq![42u8] + dec_bytes(args.deep_view().len() as int + 1) + seq![
                13u8,
                10u8,
                36u8,
            ] + dec_bytes(command.spec_bytes().len() as int) + seq![13u8, 10u8]
                + command.spec_bytes();
            proof {
                assert(out@ =~= head);
            }
            let mut i: usize = 0;
            while i < args.len()
                invariant
                    0 <= i <= args@.len(),
                    head == seq![42u8] + dec_bytes(args.deep_view().len() as int + 1) + seq![
                        13u8,
                        10u8,
                        36u8,
                    ] + dec_bytes(command.spec_bytes().len() as int) + seq![13u8, 10u8]
                        + command.spec_bytes(),
                    out@ == head + resp_args(args.deep_view().take(i as int)),
                decreases args@.len() - i,
            {
                out.push(13);
                out.push(10);
                out.push(36);
                append_u64_bytes(&mut out, args[i].len() as u64);
                out.extend_from_slice(&[13, 10]);
                out.extend_from_slice(args[i].as_slice());
                proof {
                    assert(args.deep_view().take(i + 1) =~= args.deep_view().take(i as int).push(
                        args.deep_view()[i as int],
                    ));
                    lemma_resp_args_push(args.deep_view().take(i as int), args.deep_view()[i as int]);
                    assert(args.deep_view()[i as int] =~= args@[i as int]@);
                    assert(out@ =~= head + resp_args(args.deep_view().take(i + 1)));
                }
                i = i + 1;
            }
            out.push(13);
            out.push(10);
            proof {
                assert(args.deep_view().take(args.deep_view().len() as int) =~= args.deep_view());
                assert(out@ =~= resp_frame(command.spec_bytes(), args.deep_view()));
            }
        },
    }
    session.write_all(out.as_slice());
}

/// The command word `get` as wire bytes.
pub open spec fn cmd_get() -> Seq<u8> {
    seq![103u8, 101u8, 116u8]
}

/// The command word `set` as wire bytes.
pub open spec fn cmd_set() -> Seq<u8> {
    seq![115u8, 101u8, 116u8]
}

/// The command word `del` as wire bytes.
pub open spec fn cmd_del() -> Seq<u8> {
    seq![100u8, 101u8, 108u8]
}

/// The command word `hget` as wire bytes.
pub open spec fn cmd_hget() -> Seq<u8> {
    seq![104u8, 103u8, 101u8, 116u8]
}

/// The command word `hset` as wire bytes.
pub open spec fn cmd_hset() -> Seq<u8> {
    seq![104u8, 115u8, 101u8, 116u8]
}

/// The command word `hsetnx` as wire bytes.
pub open spec fn cmd_hsetnx() -> Seq<u8> {
    seq![104u8, 115u8, 101u8, 116u8, 110u8, 120u8]
}

/// The wire bytes `EX`, the expiry option of a store.
pub open spec fn arg_ex() -> Seq<u8> {
    seq![69u8, 88u8]
}

/// GET-shaped verbs carry hit-rate accounting: every such request
/// increments the dedicated GET counter.
pub open spec fn is_get_shaped(v: Verb) -> bool {
    v is Get || v is Hget
}

/// The request frame one verb produces from a keyspace and the three
/// generation draws: key, inner key, and value.
pub open spec fn verb_frame(mode: Mode, ks: Keyspace, v: Verb, rk: u64, rf: u64, rv: u64) -> Seq<
    u8,
> {
    match v {
        Verb::Get => frame_bytes(mode, cmd_get(), seq![ks.key_bytes(rk)]),
        Verb::Store => if ks.ttl != 0 {
            frame_bytes(
                mode,
                cmd_set(),
                seq![ks.key_bytes(rk), ks.value_bytes(rv), arg_ex(), dec_bytes(ks.ttl as int)],
            )
        } else {
            frame_bytes(mode, cmd_set(), seq![ks.key_bytes(rk), ks.value_bytes(rv)])
        },
        Verb::Delete => frame_bytes(mode, cmd_del(), seq![ks.key_bytes(rk)]),
        Verb::Hget => frame_bytes(mode, cmd_hget(), seq![ks.key_bytes(rk), ks.inner_key_bytes(rf)]),
        Verb::Hset => frame_bytes(
            mode,
            cmd_hset(),
            seq![ks.key_bytes(rk), ks.inner_key_bytes(rf), ks.value_bytes(rv)],
        ),
        Verb::Hsetnx => frame_bytes(
            mode,
            cmd_hsetnx(),
            seq![ks.key_bytes(rk), ks.inner_key_bytes(rf), ks.value_bytes(rv)],
        ),
    }
}

/// Every command with positive weight in every keyspace is a GET.
pub open spec fn only_get_enabled(c: Config) -> bool {
    forall|i: int, j: int|
        0 <= i < c.keyspaces@.len() && 0 <= j < c.keyspaces@[i].commands@.len() && (
        #[trigger] c.keyspaces@[i].commands@[j]).weight > 0 ==> c.keyspaces@[i].commands@[j].verb
            is Get
}

/// One synthesized request: the encode call appended exactly the frame
/// of the selected keyspace and verb, built from five pseudorandom
/// draws, and bumped the GET counter exactly when the verb was
/// GET-shaped.
pub open spec fn encode_matches(
    c: Config,
    mode: Mode,
    tx_old: Seq<u8>,
    tx_new: Seq<u8>,
    get_old: u64,
    get_new: u64,
    rks: u64,
    rc: u64,
    rk: u64,
    rf: u64,
    rv: u64,
) -> bool {
    let ki = c.chosen_keyspace(rks);
    let ks = c.keyspaces@[ki];
    let cmd = ks.chosen_command(rc);
    &&& 0 <= ki < c.keyspaces@.len()
    &&& cmd.weight > 0
    &&& tx_new == tx_old + verb_frame(mode, ks, cmd.verb, rk, rf, rv)
    &&& get_new == if is_get_shaped(cmd.verb) {
        bump(get_old)
    } else {
        get_old
    }
}

/// Some five draws account for the appended frame and the counter move.
pub open spec fn encode_outcome(
    c: Config,
    mode: Mode,
    tx_old: Seq<u8>,
    tx_new: Seq<u8>,
    get_old: u64,
    get_new: u64,
) -> bool {
    exists|rks: u64, rc: u64, rk: u64, rf: u64, rv: u64|
        encode_matches(c, mode, tx_old, tx_new, get_old, get_new, rks, rc, rk, rf, rv)
}

/// The Redis-family codec: the immutable run configuration, the request
/// wire mode derived from the configured protocol, and the pseudorandom
/// generator driving synthesis.
pub struct Redis {
    pub config: Config,
    pub mode: Mode,
    pub rng: rand::rngs::SmallRng,
}

impl Redis {
    /// Builds the codec for a configuration, deriving the request wire
    /// mode from the configured protocol.
    pub fn new(config: Config) -> (r: Redis)
        ensures
            r.config == config,
            r.mode == (match config.protocol {
                Protocol::Redis | Protocol::RedisInline => Mode::Inline,
                Protocol::RedisResp => Mode::Resp,
            }),
    {
        let mode = match config.protocol {
            Protocol::Redis | Protocol::RedisInline => Mode::Inline,
            Protocol::RedisResp => Mode::Resp,
        };
        Redis { config, mode, rng: rng_from_entropy() }
    }

    /// Selects a keyspace and verb by configured weights, generates the
    /// concrete key, field, and value bytes, and serializes one complete
    /// request frame into the session buffer. GET-shaped requests bump
    /// the GET counter used by hit-rate accounting.
    ///
    /// When only the GET verb carries weight, the request is always a
    /// GET frame and the counter moves by exactly one.
    pub fn encode(&mut self, metrics: &mut Metrics, session: &mut Session)
        requires
            old(self).config.wf(),
        ensures
            final(self).config == old(self).config,
            final(self).mode == old(self).mode,
            final(session)@.rx == old(session)@.rx,
            final(metrics).response_hit == old(metrics).response_hit,
            encode_outcome(
                old(self).config,
                old(self).mode,
                old(session)@.tx,
                final(session)@.tx,
                old(metrics).request_get,
                final(metrics).request_get,
            ),
            only_get_enabled(old(self).config) ==> {
                &&& final(metrics).request_get == bump(old(metrics).request_get)
                &&& exists|k: Seq<u8>|
                    final(session)@.tx == old(session)@.tx + frame_bytes(
                        old(self).mode,
                        cmd_get(),
                        seq![k],
                    )
            },
    {
        let rks = rng_next(&mut self.rng);
        let ki = self.config.choose_keyspace(rks);
        let rc = rng_next(&mut self.rng);
        let command = {
            let ks: &Keyspace = &self.config.keyspaces[ki];
            ks.choose_command(rc)
        };
        let rk = rng_next(&mut self.rng);
        let rf = rng_next(&mut self.rng);
        let rv = rng_next(&mut self.rng);
        let mode = self.mode;
        let ghost ks_g = self.config.keyspaces@[ki as int];
        let key = self.config.keyspaces[ki].generate_key(rk);
        match command.verb() {
            Verb::Get => {
                metrics.incr_request_get();
                let mut args: Vec<Vec<u8>> = Vec::new();
                args.push(key);
                proof {
                    reveal_strlit("get");
                    vstd::utf8::is_ascii_chars_encode_utf8("get"@);
                    assert("get".spec_bytes() =~= cmd_get());
                    assert(args.deep_view() =~~= seq![ks_g.key_bytes(rk)]);
                }
                write_command(session, mode, "get", &args);
            },
            Verb::Store => {
                let value = match self.config.keyspaces[ki].generate_value(rv) {
                    Some(v) => v,
                    None => Vec::new(),
                };
                let ttl = self.config.keyspaces[ki].ttl();
                let mut args: Vec<Vec<u8>> = Vec::new();
                args.push(key);
                args.push(value);
                if ttl != 0 {
                    let mut ex: Vec<u8> = Vec::new();
                    ex.push(69);
                    ex.push(88);
                    let mut ttl_bytes: Vec<u8> = Vec::new();
                    append_u64_bytes(&mut ttl_bytes, ttl);
                    args.push(ex);
                    args.push(ttl_bytes);
                    proof {
                        assert(args.deep_view() =~~= seq![
                            ks_g.key_bytes(rk),
                            ks_g.value_bytes(rv),
                            arg_ex(),
                            dec_bytes(ks_g.ttl as int),
                        ]);
                    }
                } else {
                    proof {
                        assert(args.deep_view() =~~= seq![
                            ks_g.key_bytes(rk),
                            ks_g.value_bytes(rv),
                        ]);
                    }
                }
                proof {
                    reveal_strlit("set");
                    vstd::utf8::is_ascii_chars_encode_utf8("set"@);
                    assert("set".spec_bytes() =~= cmd_set());
                }
                write_command(session, mode, "set", &args);
            },
            Verb::Delete => {
                let mut args: Vec<Vec<u8>> = Vec::new();
                args.push(key);
                proof {
                    reveal_strlit("del");
                    vstd::utf8::is_ascii_chars_encode_utf8("del"@);
                    assert("del".spec_bytes() =~= cmd_del());
                    assert(args.deep_view() =~~= seq![ks_g.key_bytes(rk)]);
                }
                write_command(session, mode, "del", &args);
            },
            Verb::Hget => {
                metrics.incr_request_get();
                let field = match self.config.keyspaces[ki].generate_inner_key(rf) {
                    Some(f) => f,
                    None => Vec::new(),
                };
                let mut args: Vec<Vec<u8>> = Vec::new();
                args.push(key);
                args.push(field);
                proof {
                    reveal_strlit("hget");
                    vstd::utf8::is_ascii_chars_encode_utf8("hget"@);
                    assert("hget".spec_bytes() =~= cmd_hget());
                    assert(args.deep_view() =~~= seq![
                        ks_g.key_bytes(rk),
                        ks_g.inner_key_bytes(rf),
                    ]);
                }
                write_command(session, mode, "hget", &args);
            },
            Verb::Hset => {
                let field = match self.config.keyspaces[ki].generate_inner_key(rf) {
                    Some(f) => f,
                    None => Vec::new(),
                };
                let value = match self.config.keyspaces[ki].generate_value(rv) {
                    Some(v) => v,
                    None => Vec::new(),
                };
                let mut args: Vec<Vec<u8>> = Vec::new();
                args.push(key);
                args.push(field);
                args.push(value);
                proof {
                    reveal_strlit("hset");
                    vstd::utf8::is_ascii_chars_encode_utf8("hset"@);
                    assert("hset".spec_bytes() =~= cmd_hset());
                    assert(args.deep_view() =~~= seq![
                        ks_g.key_bytes(rk),
                        ks_g.inner_key_bytes(rf),
                        ks_g.value_bytes(rv),
                    ]);
                }
                write_command(session, mode, "hset", &args);
            },
            Verb::Hsetnx => {
                let field = match self.config.keyspaces[ki].generate_inner_key(rf) {
                    Some(f) => f,
                    None => Vec::new(),
                };
                let value = match self.config.keyspaces[ki].generate_value(rv) {
                    Some(v) => v,
                    None => Vec::new(),
                };
                let mut args: Vec<Vec<u8>> = Vec::new();
                args.push(key);
                args.push(field);
                args.push(value);
                proof {
                    reveal_strlit("hsetnx");
                    vstd::utf8::is_ascii_chars_encode_utf8("hsetnx"@);
                    assert("hsetnx".spec_bytes() =~= cmd_hsetnx());
                    assert(args.deep_view() =~~= seq![
                        ks_g.key_bytes(rk),
                        ks_g.inner_key_bytes(rf),
                        ks_g.value_bytes(rv),
                    ]);
                }
                write_command(session, mode, "hsetnx", &args);
            },
        }
        proof {
            let cw = crate::keyspace::command_weights(ks_g.commands@);
            assert(final(session)@.tx == old(session)@.tx + verb_frame(
                old(self).mode,
                ks_g,
                command.verb,
                rk,
                rf,
                rv,
            ));
            assert(encode_matches(
                old(self).config,
                old(self).mode,
                old(session)@.tx,
                final(session)@.tx,
                old(metrics).request_get,
                final(metrics).request_get,
                rks,
                rc,
                rk,
                rf,
                rv,
            ));
            if only_get_enabled(old(self).config) {
                let t_mod = rc as int % crate::keyspace::total_weight(cw);
                crate::keyspace::lemma_weighted_pick_in_range(cw, t_mod);
                let idx = crate::keyspace::weighted_pick(cw, t_mod);
                assert(command == ks_g.commands@[idx]);
                assert(old(self).config.keyspaces@[ki as int].commands@[idx].weight > 0);
                assert(command.verb is Get);
                assert(final(session)@.tx == old(session)@.tx + frame_bytes(
                    old(self).mode,
                    cmd_get(),
                    seq![ks_g.key_bytes(rk)],
                ));
            }
        }
    }

    /// Attempts to parse exactly one complete response frame from the
    /// unconsumed prefix of the session buffer.
    ///
    /// On `Ok` the frame is consumed and, for a present bulk value, the
    /// hit counter is incremented; every error leaves the buffer
    /// untouched so the caller can read more bytes and retry.
    pub fn decode(&self, metrics: &mut Metrics, session: &mut Session) -> (r: Result<
        (),
        ParseError,
    >)
        ensures
            r == decode_model(old(session)@.rx).result,
            final(session)@.rx == old(session)@.rx.skip(decode_model(old(session)@.rx).consumed),
            final(session)@.tx == old(session)@.tx,
            final(metrics).response_hit == if decode_model(old(session)@.rx).hit {
                bump(old(metrics).response_hit)
            } else {
                old(metrics).response_hit
            },
            final(metrics).request_get == old(metrics).request_get,
            r is Ok ==> decode_model(old(session)@.rx).consumed == old(session)@.rx.len(),
            r is Err ==> final(session)@.rx == old(session)@.rx,
    {
        let (result, consumed, hit) = {
            let buf = session.buffer();
            classify(buf)
        };
        proof {
            assert(old(session)@.rx.skip(0) =~= old(session)@.rx);
            assert(old(session)@.rx.skip(old(session)@.rx.len() as int) =~= Seq::<u8>::empty());
        }
        if consumed > 0 {
            session.consume(consumed);
        }
        if hit {
            metrics.incr_response_hit();
        }
        result
    }
}

} // verus!
