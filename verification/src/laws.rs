//! Laws the library proves about its own contracts: what partial frames
//! and mismatched bulk lengths decode to, that the rate queries never
//! divide, how absent counters enter deltas, and that the two machine
//! renderings of a snapshot carry the same entries.

use vstd::prelude::*;

use crate::codec::{
    bulk_digits, decode_model, ends_with_crlf, first_lf, frame_msg, header_line,
    lemma_first_lf_at, lemma_first_lf_props, untouched, ParseError,
};
use crate::num::{
    is_ascii_digit, is_i64_dec, is_unsigned_dec, signed_digits, unsigned_dec_val,
    unsigned_digits,
};
use crate::render::{json_lines, json_member, prom_blocks, render_pairs};
use crate::snapshot::{
    bounded_entries, counters_model, has_entry, hitrate_model, value_or_zero, EntryModel,
};
use vstd::utf8::{
    is_char_boundary_iff_not_is_continuation_byte, partial_valid_utf8_extend_ascii_block,
    valid_utf8, valid_utf8_concat, valid_utf8_split,
};

verus! {

/// An all-ASCII byte sequence is valid UTF-8.
pub proof fn lemma_ascii_valid_utf8(s: Seq<u8>)
    requires
        forall|k: int| 0 <= k < s.len() ==> s[k] < 128,
    ensures
        valid_utf8(s),
{
    assert(vstd::utf8::partial_valid_utf8(s, 0)) by {
        assert(s.subrange(0, 0) =~= Seq::<u8>::empty());
    }
    partial_valid_utf8_extend_ascii_block(s, 0, s.len() as int);
    assert(s.subrange(0, s.len() as int) =~= s);
}

/// Every byte of an unsigned decimal payload is a plus sign or a digit.
proof fn lemma_unsigned_dec_bytes(s: Seq<u8>)
    requires
        is_unsigned_dec(s, usize::MAX as int),
    ensures
        forall|k: int| 0 <= k < s.len() ==> (s[k] == 43 || is_ascii_digit(#[trigger] s[k])),
        s.len() >= 1,
{
    let d = unsigned_digits(s);
    assert forall|k: int| 0 <= k < s.len() implies (s[k] == 43 || is_ascii_digit(
        #[trigger] s[k],
    )) by {
        if s[0] == 43 {
            if k > 0 {
                assert(d[k - 1] == s[k]);
            }
        } else {
            assert(d[k] == s[k]);
        }
    }
}

/// Every byte of a signed 64-bit decimal payload is a sign or a digit.
proof fn lemma_i64_dec_bytes(s: Seq<u8>)
    requires
        is_i64_dec(s),
    ensures
        forall|k: int|
            0 <= k < s.len() ==> (s[k] == 43 || s[k] == 45 || is_ascii_digit(#[trigger] s[k])),
        s.len() >= 1,
{
    let d = signed_digits(s);
    assert forall|k: int| 0 <= k < s.len() implies (s[k] == 43 || s[k] == 45 || is_ascii_digit(
        #[trigger] s[k],
    )) by {
        if s[0] == 43 || s[0] == 45 {
            if k > 0 {
                assert(d[k - 1] == s[k]);
            }
        } else {
            assert(d[k] == s[k]);
        }
    }
}

/// Partial-frame idempotence: every proper prefix of a frame that
/// decodes successfully is itself classified incomplete, consuming
/// nothing — whatever the frame type and wherever the truncation point
/// falls.
pub proof fn lemma_partial_frame_incomplete(buf: Seq<u8>, n: int)
    requires
        decode_model(buf).result is Ok,
        0 <= n < buf.len(),
    ensures
        decode_model(buf.take(n)) == untouched(Err(ParseError::Incomplete)),
{
    let p = buf.take(n);
    if !ends_with_crlf(p) {
        return ;
    }
    // The prefix ends in CRLF, so the truncated frame is dispatched on
    // its lead byte; each case below shows it is judged incomplete.
    assert(n >= 2);
    assert(buf[n - 2] == 13 && buf[n - 1] == 10);
    assert(ends_with_crlf(buf));
    let len = buf.len() as int;
    let msgfull = frame_msg(buf);
    if buf[0] == 43 {
        assert(len >= 5);
        if msgfull == seq![79u8, 75u8] {
            assert(len == 5);
            assert(buf[1] == 79 && buf[2] == 75) by {
                assert(msgfull[0] == buf[1] && msgfull[1] == buf[2]);
            }
            assert(false);
        } else {
            assert(msgfull == seq![80u8, 79u8, 78u8, 71u8]);
            assert(len == 7);
            assert(buf[1] == 80 && buf[2] == 79 && buf[3] == 78 && buf[4] == 71) by {
                assert(msgfull[0] == buf[1] && msgfull[1] == buf[2] && msgfull[2] == buf[3]
                    && msgfull[3] == buf[4]);
            }
            assert(false);
        }
    } else if buf[0] == 58 {
        assert(is_i64_dec(msgfull));
        lemma_i64_dec_bytes(msgfull);
        if n == 2 {
            assert(buf[0] == 13);
        } else {
            assert(msgfull[n - 3] == buf[n - 2]);
        }
        assert(false);
    } else if buf[0] == 42 {
        assert(msgfull == seq![45u8, 49u8]);
        assert(len == 5);
        assert(buf[1] == 45 && buf[2] == 49) by {
            assert(msgfull[0] == buf[1] && msgfull[1] == buf[2]);
        }
        assert(false);
    } else {
        assert(buf[0] == 36);
        if msgfull == seq![45u8, 49u8] {
            assert(len == 5);
            assert(buf[1] == 45 && buf[2] == 49) by {
                assert(msgfull[0] == buf[1] && msgfull[1] == buf[2]);
            }
            assert(false);
        } else {
            // A successfully decoded bulk frame: recover its header.
            let digits = bulk_digits(buf);
            assert(valid_utf8(msgfull));
            assert(is_unsigned_dec(digits, usize::MAX as int));
            lemma_unsigned_dec_bytes(digits);
            let q = first_lf(buf);
            lemma_first_lf_props(buf);
            assert(q < len) by {
                assert(buf[len - 1] == 10);
                if q == len {
                    assert(buf[len - 1] != 10);
                }
            }
            assert(buf[q] == 10);
            let hl = header_line(buf);
            // The prefix reaches past the header line: a prefix that
            // stops inside it has no line feed to end on.
            assert(q < n) by {
                if n <= q {
                    assert(buf[n - 1] != 10);
                }
            }
            // The prefix finds the same header, hence the same declared
            // length.
            assert(first_lf(p) == q) by {
                assert(forall|k: int| 0 <= k < q ==> p[k] == buf[k]);
                assert(p[q] == buf[q]);
                lemma_first_lf_at(p, q);
            }
            assert(p.subrange(0, q) =~= buf.subrange(0, q));
            let digits_p = bulk_digits(p);
            assert(digits_p == digits) by {
                assert(header_line(p) == hl);
            }
            assert(digits.len() >= 1);
            assert(digits[0] == buf[1]) by {
                if buf.subrange(0, q).last() == 13 {
                    assert(hl =~= buf.subrange(0, q).drop_last());
                    assert(digits[0] == hl[1]);
                    assert(hl[1] == buf[1]);
                } else {
                    assert(hl =~= buf.subrange(0, q));
                    assert(digits[0] == hl[1]);
                    assert(hl[1] == buf[1]);
                }
            }
            let msgp = frame_msg(p);
            assert(msgp =~= msgfull.subrange(0, n - 3));
            // The truncated payload is still valid UTF-8: the cut falls
            // right before an ASCII carriage return, which is a
            // character boundary.
            assert(valid_utf8(msgp)) by {
                if n - 3 == msgfull.len() {
                    assert(msgp =~= msgfull);
                } else {
                    assert(msgfull[n - 3] == buf[n - 2]);
                    is_char_boundary_iff_not_is_continuation_byte(msgfull, n - 3);
                    valid_utf8_split(msgfull, n - 3);
                }
            }
            // The truncated payload is not the `-1` miss marker.
            assert(msgp != seq![45u8, 49u8]) by {
                if msgp == seq![45u8, 49u8] {
                    assert(msgp[0] == buf[1]);
                    assert(buf[1] == 45);
                    assert(digits[0] == 43 || is_ascii_digit(digits[0]));
                }
            }
            // Fewer bytes available than declared: incomplete.
            let expected = unsigned_dec_val(digits);
            assert(len - digits.len() - 5 == expected);
            assert(n - digits_p.len() - 5 < expected);
        }
    }
}

/// A well-formed bulk-string frame whose body length disagrees with the
/// declared length never decodes successfully: a longer body is a
/// protocol desync error, a shorter one is incomplete, and the buffer
/// is left untouched either way.
pub open spec fn bulk_frame(digits: Seq<u8>, body: Seq<u8>) -> Seq<u8> {
    seq![36u8] + digits + seq![13u8, 10u8] + body + seq![13u8, 10u8]
}

/// The declared-length comparison of a bulk frame, proved from the
/// decode model.
pub proof fn lemma_bulk_length_mismatch(digits: Seq<u8>, body: Seq<u8>)
    requires
        is_unsigned_dec(digits, usize::MAX as int),
        valid_utf8(body),
        body.len() != unsigned_dec_val(digits),
    ensures
        body.len() > unsigned_dec_val(digits) ==> decode_model(bulk_frame(digits, body))
            == untouched(Err(ParseError::Error)),
        body.len() < unsigned_dec_val(digits) ==> decode_model(bulk_frame(digits, body))
            == untouched(Err(ParseError::Incomplete)),
        !(decode_model(bulk_frame(digits, body)).result is Ok),
{
    let f = bulk_frame(digits, body);
    let dlen = digits.len() as int;
    let flen = f.len() as int;
    lemma_unsigned_dec_bytes(digits);
    assert(flen == dlen + body.len() + 5);
    assert(f[0] == 36);
    assert(ends_with_crlf(f));
    // The header line is the digits after the `$`.
    assert(first_lf(f) == dlen + 2) by {
        assert(forall|k: int| 0 <= k < dlen + 2 ==> f[k] != 10);
        assert(f[dlen + 2] == 10);
        lemma_first_lf_at(f, dlen + 2);
    }
    assert(f.subrange(0, dlen + 2).last() == f[dlen + 1]);
    assert(f[dlen + 1] == 13);
    assert(header_line(f) =~= f.subrange(0, dlen + 1));
    assert(bulk_digits(f) =~= digits) by {
        assert(f.subrange(0, dlen + 1).drop_first() =~= digits);
    }
    // The payload is valid UTF-8: ASCII header plus the valid body.
    let msg = frame_msg(f);
    assert(msg =~= (digits + seq![13u8, 10u8]) + body);
    assert(valid_utf8(digits + seq![13u8, 10u8])) by {
        lemma_ascii_valid_utf8(digits + seq![13u8, 10u8]);
    }
    valid_utf8_concat(digits + seq![13u8, 10u8], body);
    // The payload is not the `-1` miss marker.
    assert(msg != seq![45u8, 49u8]) by {
        if msg == seq![45u8, 49u8] {
            assert(msg[0] == digits[0]);
            assert(digits[0] == 43 || is_ascii_digit(digits[0]));
        }
    }
    assert(flen - bulk_digits(f).len() - 5 == body.len());
}

/// The hit-rate query never divides by zero, whatever the two
/// timestamps: its denominator is always positive, and whenever the
/// total rate is not positive — the total delta is zero or negative, or
/// the timestamps coincide — the hit-rate is exactly zero.
pub proof fn lemma_hitrate_never_divides(
    newer: &crate::snapshot::Snapshot,
    older: &crate::snapshot::Snapshot,
    total_name: Seq<char>,
    hit_name: Seq<char>,
)
    ensures
        hitrate_model(
            counters_model(newer.counters@),
            counters_model(older.counters@),
            newer.timestamp_ns > older.timestamp_ns,
            total_name,
            hit_name,
        ).wf(),
        !(newer.timestamp_ns > older.timestamp_ns && value_or_zero(
            counters_model(newer.counters@),
            total_name,
        ) - value_or_zero(counters_model(older.counters@), total_name) > 0)
            ==> hitrate_model(
            counters_model(newer.counters@),
            counters_model(older.counters@),
            newer.timestamp_ns > older.timestamp_ns,
            total_name,
            hit_name,
        ).num == 0,
{
    crate::snapshot::lemma_models_bounded(newer.counters@, newer.gauges@);
    crate::snapshot::lemma_models_bounded(older.counters@, older.gauges@);
    lemma_value_or_zero_bounded(counters_model(newer.counters@), total_name);
    lemma_value_or_zero_bounded(counters_model(older.counters@), total_name);
}

/// A looked-up value stays within the captured range; an absent name is
/// zero.
proof fn lemma_value_or_zero_bounded(s: Seq<EntryModel>, name: Seq<char>)
    requires
        bounded_entries(s),
    ensures
        -0x8000_0000_0000_0000 <= value_or_zero(s, name) <= 0xffff_ffff_ffff_ffff,
    decreases s.len(),
{
    lemma_find_entry_range(s, name);
}

/// The found index is in range whenever it is non-negative.
proof fn lemma_find_entry_range(s: Seq<EntryModel>, name: Seq<char>)
    ensures
        crate::snapshot::find_entry(s, name) == -1 || 0 <= crate::snapshot::find_entry(s, name)
            < s.len(),
        crate::snapshot::find_entry(s, name) >= 0 ==> s[crate::snapshot::find_entry(s, name)].name
            == name,
    decreases s.len(),
{
    if s.len() > 0 && s[0].name != name {
        lemma_find_entry_range(s.drop_first(), name);
    }
}

/// A counter absent from both snapshots contributes a zero delta, and
/// one absent only from the older snapshot contributes the newer value
/// verbatim.
pub proof fn lemma_delta_of_absent_counter(
    newer: Seq<EntryModel>,
    older: Seq<EntryModel>,
    name: Seq<char>,
)
    ensures
        !has_entry(newer, name) && !has_entry(older, name) ==> value_or_zero(newer, name)
            - value_or_zero(older, name) == 0,
        !has_entry(older, name) ==> value_or_zero(newer, name) - value_or_zero(older, name)
            == value_or_zero(newer, name),
{
}

/// The JSON and Prometheus renderings of one snapshot draw on the same
/// ordered name-and-value pairs: the JSON members are exactly those
/// pairs rendered one by one, and every Prometheus block ends with the
/// identical decimal rendering of its pair's value. The two texts
/// differ only in framing.
pub proof fn lemma_json_prometheus_share_entries(s: crate::snapshot::Snapshot)
    ensures
        json_lines(s) == render_pairs(s).map_values(
            |p: (Seq<char>, int)| json_member(p.0, p.1),
        ),
        prom_blocks(s).len() == render_pairs(s).len(),
        forall|i: int|
            0 <= i < render_pairs(s).len() ==> crate::render::block_ends_with_pair_value(s, i),
{
    crate::render::lemma_render_pair_structure(s);
}

} // verus!

