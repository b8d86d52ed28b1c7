use rpcperf::codec::{Mode, ParseError, Redis};
use rpcperf::keyspace::{Command, Config, Keyspace, Protocol, Verb};
use rpcperf::metrics::Metrics;
use rpcperf::session::Session;

fn get_only_config(protocol: Protocol) -> Config {
    Config {
        protocol,
        interval_ms: 1000,
        windows: Some(1),
        keyspaces: vec![Keyspace {
            weight: 1,
            ttl: 0,
            commands: vec![Command { verb: Verb::Get, weight: 1 }],
            key_count: 1,
            inner_key_count: None,
            value_len: None,
        }],
    }
}

fn decode_bytes(bytes: &[u8]) -> (Result<(), ParseError>, usize, u64) {
    let codec = Redis::new(get_only_config(Protocol::RedisResp));
    let mut metrics = Metrics::new();
    let mut session = Session::new();
    session.receive(bytes);
    let r = codec.decode(&mut metrics, &mut session);
    (r, session.buffer().len(), metrics.response_hit)
}

#[test]
fn bulk_reply_is_consumed_and_counts_a_hit() {
    let (r, left, hits) = decode_bytes(b"$6\r\nfoobar\r\n");
    assert_eq!(r, Ok(()));
    assert_eq!(left, 0);
    assert_eq!(hits, 1);
}

#[test]
fn null_bulk_reply_is_consumed_without_a_hit() {
    let (r, left, hits) = decode_bytes(b"$-1\r\n");
    assert_eq!(r, Ok(()));
    assert_eq!(left, 0);
    assert_eq!(hits, 0);
}

#[test]
fn every_truncation_of_a_valid_frame_is_incomplete() {
    let frames: [&[u8]; 7] = [
        b"+OK\r\n",
        b"+PONG\r\n",
        b":12345\r\n",
        b"$-1\r\n",
        b"$6\r\nfoobar\r\n",
        b"*-1\r\n",
        b"$4\r\nab\r\n\r\n",
    ];
    for frame in frames.iter() {
        for n in 0..frame.len() {
            let (r, left, hits) = decode_bytes(&frame[..n]);
            assert_eq!(r, Err(ParseError::Incomplete));
            assert_eq!(left, n);
            assert_eq!(hits, 0);
        }
    }
}

#[test]
fn bulk_with_longer_body_is_a_desync_error() {
    let (r, left, hits) = decode_bytes(b"$3\r\nabcd\r\n");
    assert_eq!(r, Err(ParseError::Error));
    assert_eq!(left, 10);
    assert_eq!(hits, 0);
}

#[test]
fn bulk_with_shorter_body_is_incomplete() {
    let (r, left, hits) = decode_bytes(b"$5\r\nabc\r\n");
    assert_eq!(r, Err(ParseError::Incomplete));
    assert_eq!(left, 9);
    assert_eq!(hits, 0);
}

#[test]
fn simple_strings_accept_exactly_ok_and_pong() {
    assert_eq!(decode_bytes(b"+OK\r\n").0, Ok(()));
    assert_eq!(decode_bytes(b"+PONG\r\n").0, Ok(()));
    assert_eq!(decode_bytes(b"+NO\r\n").0, Err(ParseError::Unknown));
    assert_eq!(decode_bytes(b"+OKAY\r\n").0, Err(ParseError::Unknown));
}

#[test]
fn integer_replies_require_a_signed_64_bit_payload() {
    assert_eq!(decode_bytes(b":0\r\n").0, Ok(()));
    assert_eq!(decode_bytes(b":-42\r\n").0, Ok(()));
    assert_eq!(decode_bytes(b":9223372036854775807\r\n").0, Ok(()));
    assert_eq!(decode_bytes(b":9223372036854775808\r\n").0, Err(ParseError::Unknown));
    assert_eq!(decode_bytes(b":abc\r\n").0, Err(ParseError::Unknown));
}

#[test]
fn error_reply_is_reported_and_left_in_the_buffer() {
    let (r, left, _) = decode_bytes(b"-ERR wrong\r\n");
    assert_eq!(r, Err(ParseError::Error));
    assert_eq!(left, 12);
}

#[test]
fn non_null_arrays_are_unsupported() {
    assert_eq!(decode_bytes(b"*-1\r\n").0, Ok(()));
    assert_eq!(decode_bytes(b"*2\r\n").0, Err(ParseError::Unknown));
}

#[test]
fn bulk_with_invalid_utf8_payload_is_unknown() {
    let (r, left, hits) = decode_bytes(b"$2\r\n\xff\xfe\r\n");
    assert_eq!(r, Err(ParseError::Unknown));
    assert_eq!(left, 8);
    assert_eq!(hits, 0);
}

#[test]
fn unknown_lead_byte_is_unknown() {
    assert_eq!(decode_bytes(b"hello\r\n").0, Err(ParseError::Unknown));
}

#[test]
fn get_only_keyspace_always_encodes_inline_get() {
    let mut codec = Redis::new(get_only_config(Protocol::Redis));
    assert!(matches!(codec.mode, Mode::Inline));
    let mut metrics = Metrics::new();
    let mut session = Session::new();
    for round in 1..=5u64 {
        codec.encode(&mut metrics, &mut session);
        let frame = session.take_writes();
        assert_eq!(frame, b"get 0\r\n".to_vec());
        assert_eq!(metrics.request_get, round);
    }
    assert_eq!(metrics.response_hit, 0);
}

#[test]
fn get_only_keyspace_always_encodes_resp_get() {
    let mut codec = Redis::new(get_only_config(Protocol::RedisResp));
    assert!(matches!(codec.mode, Mode::Resp));
    let mut metrics = Metrics::new();
    let mut session = Session::new();
    codec.encode(&mut metrics, &mut session);
    let frame = session.take_writes();
    assert_eq!(frame, b"*2\r\n$3\r\nget\r\n$1\r\n0\r\n".to_vec());
    assert_eq!(metrics.request_get, 1);
}

#[test]
fn store_with_ttl_encodes_expiry_arguments() {
    let config = Config {
        protocol: Protocol::RedisInline,
        interval_ms: 1000,
        windows: None,
        keyspaces: vec![Keyspace {
            weight: 1,
            ttl: 7,
            commands: vec![Command { verb: Verb::Store, weight: 1 }],
            key_count: 1,
            inner_key_count: None,
            value_len: Some(8),
        }],
    };
    let mut codec = Redis::new(config);
    let mut metrics = Metrics::new();
    let mut session = Session::new();
    codec.encode(&mut metrics, &mut session);
    let frame = session.take_writes();
    assert!(frame.starts_with(b"set 0 "));
    assert!(frame.ends_with(b" EX 7\r\n"));
    assert_eq!(frame.len(), b"set 0 ".len() + 8 + b" EX 7\r\n".len());
    assert_eq!(metrics.request_get, 0);
}

#[test]
fn hget_counts_as_a_get_shaped_request() {
    let config = Config {
        protocol: Protocol::RedisInline,
        interval_ms: 1000,
        windows: None,
        keyspaces: vec![Keyspace {
            weight: 1,
            ttl: 0,
            commands: vec![Command { verb: Verb::Hget, weight: 3 }],
            key_count: 1,
            inner_key_count: Some(1),
            value_len: None,
        }],
    };
    let mut codec = Redis::new(config);
    let mut metrics = Metrics::new();
    let mut session = Session::new();
    codec.encode(&mut metrics, &mut session);
    let frame = session.take_writes();
    assert_eq!(frame, b"hget 0 0\r\n".to_vec());
    assert_eq!(metrics.request_get, 1);
}

#[test]
fn partial_bulk_then_rest_decodes_once_complete() {
    let codec = Redis::new(get_only_config(Protocol::RedisResp));
    let mut metrics = Metrics::new();
    let mut session = Session::new();
    session.receive(b"$6\r\nfoo");
    assert_eq!(codec.decode(&mut metrics, &mut session), Err(ParseError::Incomplete));
    session.receive(b"bar\r\n");
    assert_eq!(codec.decode(&mut metrics, &mut session), Ok(()));
    assert_eq!(session.buffer().len(), 0);
    assert_eq!(metrics.response_hit, 1);
}

#[test]
fn bulk_length_header_accepts_a_plus_sign() {
    // Unsigned decimal parsing accepts one leading plus, so this frame
    // declares length six and decodes as a hit.
    let (r, left, hits) = decode_bytes(b"$+6\r\nfoobar\r\n");
    assert_eq!(r, Ok(()));
    assert_eq!(left, 0);
    assert_eq!(hits, 1);
}

#[test]
fn completeness_is_judged_on_the_whole_buffer() {
    // Two pipelined replies look like one frame whose payload contains
    // a CRLF; the simple-string grammar then rejects it. This is the
    // preserved trailing-CRLF simplification.
    let (r, left, _) = decode_bytes(b"+OK\r\n+OK\r\n");
    assert_eq!(r, Err(ParseError::Unknown));
    assert_eq!(left, 10);
}

#[test]
fn buffer_with_trailing_extra_bytes_is_incomplete() {
    let (r, left, _) = decode_bytes(b"$6\r\nfoobar\r\nEXT");
    assert_eq!(r, Err(ParseError::Incomplete));
    assert_eq!(left, 15);
}
