//! The executable decoder of the CBOR wire layer.
//!
//! Each function here mirrors one spec parser of the byte-format module
//! and is proved to return exactly what that parser describes, so
//! [`decode_envelope`] accepts precisely the language of
//! [`crate::cbor::parse_envelope`].

use vstd::prelude::*;

use crate::topics::DiagnosticKeyValue;
use crate::topics::DiagnosticMsg;
use crate::topics::DiagnosticStatus;
use crate::topics::FloatBits32;
use crate::topics::FloatBits64;
use crate::topics::KeyValueView;
use crate::topics::MotionRequestMode;
use crate::topics::MotionTargetRequest;
use crate::topics::MotionVelocityRequest;
use crate::topics::OdometryDelta;
use crate::topics::PacketData;
use crate::topics::PacketFormat;
use crate::topics::PositionEstimate;
use crate::topics::SubscriptionRequest;
use crate::topics::ClockRequest;
use crate::topics::ClockResponse;
use crate::topics::MAX_KEY_VALUE_LEN;
use crate::topics::MAX_MESSAGE_LEN;
use crate::topics::MAX_NAME_LEN;
use crate::topics::MAX_TOPIC_LEN;
use crate::topics::bounded_ascii;
use crate::cbor::be32_val;
use crate::cbor::be64_val;
use crate::cbor::chars_of;
use crate::cbor::expect;
use crate::cbor::hdr;
use crate::cbor::lemma_index_at;
use crate::cbor::parse_data;
use crate::cbor::parse_diagnostic;
use crate::cbor::parse_envelope;
use crate::cbor::parse_clock_request;
use crate::cbor::parse_clock_response;
use crate::cbor::parse_f32;
use crate::cbor::parse_f64;
use crate::cbor::parse_hdr;
use crate::cbor::parse_kv;
use crate::cbor::parse_kv_list;
use crate::cbor::parse_lin2;
use crate::cbor::parse_mode;
use crate::cbor::parse_odometry;
use crate::cbor::parse_opt_addr;
use crate::cbor::parse_pos2;
use crate::cbor::parse_position;
use crate::cbor::parse_status;
use crate::cbor::parse_subscription;
use crate::cbor::parse_target;
use crate::cbor::parse_text;
use crate::cbor::parse_topics_list;
use crate::cbor::parse_velocity;
use crate::cbor::text;
use vstd::utf8::is_ascii_chars;

verus! {

/// Relies on `String::from_utf8`: ASCII bytes are valid UTF-8 and decode
/// to one character per byte.
#[verifier::external_body]
pub(crate) fn ascii_to_string(bytes: Vec<u8>) -> (r: String)
    requires
        forall|i: int| 0 <= i < bytes@.len() ==> bytes@[i] < 128,
    ensures
        r@.len() == bytes@.len(),
        forall|i: int| 0 <= i < bytes@.len() ==> r@[i] == bytes@[i] as char,
{
    String::from_utf8(bytes).unwrap_or_default()
}

fn exec_parse_hdr(s: &[u8], i: usize, major: u8) -> (r: Option<(u64, usize)>)
    requires
        major < 8,
    ensures
        match r {
            Some((v, j)) => parse_hdr(s@, i as int, major) == Some((v, j as int)) && i < j
                <= s@.len(),
            None => parse_hdr(s@, i as int, major) is None,
        },
{
    if i >= s.len() {
        return None;
    }
    let b = s[i];
    if b / 32 != major {
        return None;
    }
    let ai = b % 32;
    if ai < 24 {
        Some((ai as u64, i + 1))
    } else if ai == 24 {
        if s.len() - i > 1 && s[i + 1] >= 24 {
            Some((s[i + 1] as u64, i + 2))
        } else {
            None
        }
    } else if ai == 25 {
        if s.len() - i > 2 {
            let v = (s[i + 1] as u64) * 256 + (s[i + 2] as u64);
            if v >= 256 {
                Some((v, i + 3))
            } else {
                None
            }
        } else {
            None
        }
    } else if ai == 26 {
        if s.len() - i > 4 {
            let v = (s[i + 1] as u64) * 0x1000000 + (s[i + 2] as u64) * 0x10000 + (s[i + 3] as u64)
                * 256 + (s[i + 4] as u64);
            if v >= 65536 {
                Some((v, i + 5))
            } else {
                None
            }
        } else {
            None
        }
    } else if ai == 27 {
        if s.len() - i > 8 {
            let hi = (s[i + 1] as u64) * 0x1000000 + (s[i + 2] as u64) * 0x10000 + (s[i
                + 3] as u64) * 256 + (s[i + 4] as u64);
            let lo = (s[i + 5] as u64) * 0x1000000 + (s[i + 6] as u64) * 0x10000 + (s[i
                + 7] as u64) * 256 + (s[i + 8] as u64);
            let v = hi * 0x100000000 + lo;
            if v >= 0x100000000 {
                Some((v, i + 9))
            } else {
                None
            }
        } else {
            None
        }
    } else {
        None
    }
}

fn exec_expect_lit(s: &[u8], i: usize, lit: &str) -> (r: Option<usize>)
    requires
        is_ascii_chars(lit@),
        lit@.len() < 24,
    ensures
        match r {
            Some(j) => expect(s@, i as int, text(lit@)) == Some(j as int) && i < j <= s@.len(),
            None => expect(s@, i as int, text(lit@)) is None,
        },
{
    proof {
        vstd::string::is_ascii_spec_bytes(lit);
    }
    let lb = lit.as_bytes();
    let n = lb.len();
    assert(lb@ =~= crate::cbor::ascii_bytes(lit@));
    if i >= s.len() || s.len() - i < n + 1 {
        return None;
    }
    if s[i] != 96 + (n as u8) {
        proof {
            if expect(s@, i as int, text(lit@)) is Some {
                lemma_index_at(s@, i as int, i + 1 + n, text(lit@), 0);
            }
        }
        return None;
    }
    let mut k: usize = 0;
    while k < n
        invariant
            k <= n,
            n == lit@.len(),
            n < 24,
            is_ascii_chars(lit@),
            lb@ == crate::cbor::ascii_bytes(lit@),
            i + 1 + n <= s@.len(),
            s@.len() <= usize::MAX,
            s@[i as int] == (3 * 32 + n) as u8,
            forall|t: int| 0 <= t < k ==> s@[i + 1 + t] == lb@[t],
        decreases n - k,
    {
        if s[i + 1 + k] != lb[k] {
            proof {
                if expect(s@, i as int, text(lit@)) is Some {
                    lemma_index_at(s@, i as int, i + 1 + n, text(lit@), 1 + k);
                }
            }
            return None;
        }
        k = k + 1;
    }
    proof {
        assert forall|t: int| 0 <= t < text(lit@).len() implies s@.subrange(
            i as int,
            i + 1 + n,
        )[t] == text(lit@)[t] by {
            assert(s@.subrange(i as int, i + 1 + n)[t] == s@[i + t]);
            if t >= 1 {
                assert(s@[i + 1 + (t - 1)] == lb@[t - 1]);
            }
        }
        assert(s@.subrange(i as int, i + 1 + n) =~= text(lit@));
    }
    Some(i + 1 + n)
}

fn exec_parse_text(s: &[u8], i: usize, max: usize) -> (r: Option<(String, usize)>)
    ensures
        match r {
            Some(v) => {
                &&& parse_text(s@, i as int, max as int) == Some((v.0@, v.1 as int))
                &&& v.1 <= s@.len()
                &&& bounded_ascii(v.0@, max as int)
            },
            None => parse_text(s@, i as int, max as int) is None,
        },
{
    match exec_parse_hdr(s, i, 3) {
        None => None,
        Some((n, j)) => {
            let ghost n0 = n;
            if n > max as u64 {
                return None;
            }
            let n = n as usize;
            if s.len() - j < n {
                return None;
            }
            let mut bytes: Vec<u8> = Vec::new();
            let mut k: usize = 0;
            while k < n
                invariant
                    k <= n,
                    n == n0,
                    n0 <= max,
                    parse_hdr(s@, i as int, 3) == Some((n0, j as int)),
                    j + n <= s@.len(),
                    s@.len() <= usize::MAX,
                    bytes@.len() == k,
                    forall|t: int| 0 <= t < k ==> bytes@[t] == s@[j + t] && s@[j + t] < 128,
                decreases n - k,
            {
                let b = s[j + k];
                if b >= 128 {
                    proof {
                        assert(s@[j + k] >= 128);
                    }
                    return None;
                }
                bytes.push(b);
                k = k + 1;
            }
            let st = ascii_to_string(bytes);
            proof {
                assert forall|t: int| j <= t < j + n implies s@[t] < 128 by {
                    let u = t - j;
                    assert(bytes@[u] == s@[j + u] && s@[j + u] < 128);
                    assert(j + u == t);
                }
                assert forall|t: int| 0 <= t < n implies chars_of(
                    s@.subrange(j as int, j + n),
                )[t] == st@[t] by {
                    assert(s@.subrange(j as int, j + n)[t] == s@[j + t]);
                    assert(bytes@[t] == s@[j + t] && s@[j + t] < 128);
                    assert(st@[t] == bytes@[t] as char);
                }
                assert(st@ =~= chars_of(s@.subrange(j as int, j + n)));
                assert forall|t: int| 0 <= t < st@.len() implies '\0' <= #[trigger] st@[t]
                    <= '\u{7f}' by {
                    assert(st@[t] == s@[j + t] as char);
                }
            }
            Some((st, j + n))
        },
    }
}

fn exec_parse_opt_addr(s: &[u8], i: usize) -> (r: Option<(Option<u16>, usize)>)
    ensures
        match r {
            Some(v) => parse_opt_addr(s@, i as int) == Some((v.0, v.1 as int)) && v.1 <= s@.len(),
            None => parse_opt_addr(s@, i as int) is None,
        },
{
    if i < s.len() && s[i] == 0xF6 {
        return Some((None, i + 1));
    }
    match exec_parse_hdr(s, i, 0) {
        Some((n, j)) => {
            if n <= 65535 {
                Some((Some(n as u16), j))
            } else {
                None
            }
        },
        None => None,
    }
}

fn exec_parse_f32(s: &[u8], i: usize) -> (r: Option<(FloatBits32, usize)>)
    ensures
        match r {
            Some(v) => parse_f32(s@, i as int) == Some((v.0, v.1 as int)) && v.1 <= s@.len(),
            None => parse_f32(s@, i as int) is None,
        },
{
    if i < s.len() && s.len() - i > 4 && s[i] == 0xFA {
        let bits = (s[i + 1] as u32) * 0x1000000 + (s[i + 2] as u32) * 0x10000 + (s[i + 3] as u32)
            * 256 + (s[i + 4] as u32);
        assert(bits == be32_val(s@, i + 1));
        Some((FloatBits32 { bits }, i + 5))
    } else {
        None
    }
}

fn exec_parse_f64(s: &[u8], i: usize) -> (r: Option<(FloatBits64, usize)>)
    ensures
        match r {
            Some(v) => parse_f64(s@, i as int) == Some((v.0, v.1 as int)) && v.1 <= s@.len(),
            None => parse_f64(s@, i as int) is None,
        },
{
    if i < s.len() && s.len() - i > 8 && s[i] == 0xFB {
        let hi = (s[i + 1] as u64) * 0x1000000 + (s[i + 2] as u64) * 0x10000 + (s[i + 3] as u64)
            * 256 + (s[i + 4] as u64);
        let lo = (s[i + 5] as u64) * 0x1000000 + (s[i + 6] as u64) * 0x10000 + (s[i + 7] as u64)
            * 256 + (s[i + 8] as u64);
        let bits = hi * 0x100000000 + lo;
        assert(bits == be64_val(s@, i + 1));
        Some((FloatBits64 { bits }, i + 9))
    } else {
        None
    }
}

fn exec_expect_byte(s: &[u8], i: usize, b: u8) -> (r: Option<usize>)
    ensures
        match r {
            Some(j) => expect(s@, i as int, seq![b]) == Some(j as int) && i < j <= s@.len(),
            None => expect(s@, i as int, seq![b]) is None,
        },
{
    if i < s.len() && s[i] == b {
        proof {
            assert(s@.subrange(i as int, i + 1) =~= seq![b]);
        }
        Some(i + 1)
    } else {
        proof {
            if expect(s@, i as int, seq![b]) is Some {
                lemma_index_at(s@, i as int, i + 1, seq![b], 0);
            }
        }
        None
    }
}

fn exec_parse_pos2(s: &[u8], i: usize) -> (r: Option<((FloatBits32, FloatBits32), usize)>)
    ensures
        match r {
            Some(v) => parse_pos2(s@, i as int) == Some((v.0, v.1 as int)) && v.1 <= s@.len(),
            None => parse_pos2(s@, i as int) is None,
        },
{
    proof {
        assert(hdr(4, 2) =~= seq![0x82u8]);
    }
    match exec_expect_byte(s, i, 0x82) {
        None => None,
        Some(j) => match exec_parse_f32(s, j) {
            None => None,
            Some((x, j1)) => match exec_parse_f32(s, j1) {
                None => None,
                Some((y, j2)) => Some(((x, y), j2)),
            },
        },
    }
}

fn exec_parse_lin2(s: &[u8], i: usize) -> (r: Option<((FloatBits64, FloatBits64), usize)>)
    ensures
        match r {
            Some(v) => parse_lin2(s@, i as int) == Some((v.0, v.1 as int)) && v.1 <= s@.len(),
            None => parse_lin2(s@, i as int) is None,
        },
{
    proof {
        assert(hdr(4, 2) =~= seq![0x82u8]);
    }
    match exec_expect_byte(s, i, 0x82) {
        None => None,
        Some(j) => match exec_parse_f64(s, j) {
            None => None,
            Some((x, j1)) => match exec_parse_f64(s, j1) {
                None => None,
                Some((y, j2)) => Some(((x, y), j2)),
            },
        },
    }
}

fn exec_parse_status(s: &[u8], i: usize) -> (r: Option<(DiagnosticStatus, usize)>)
    ensures
        match r {
            Some(v) => parse_status(s@, i as int) == Some((v.0, v.1 as int)) && v.1 <= s@.len(),
            None => parse_status(s@, i as int) is None,
        },
{
    proof {
        reveal_strlit("Ok");
        reveal_strlit("Warn");
        reveal_strlit("Error");
        reveal_strlit("Stale");
    }
    if let Some(j) = exec_expect_lit(s, i, "Ok") {
        return Some((DiagnosticStatus::Okay, j));
    }
    if let Some(j) = exec_expect_lit(s, i, "Warn") {
        return Some((DiagnosticStatus::Warn, j));
    }
    if let Some(j) = exec_expect_lit(s, i, "Error") {
        return Some((DiagnosticStatus::Error, j));
    }
    if let Some(j) = exec_expect_lit(s, i, "Stale") {
        return Some((DiagnosticStatus::Stale, j));
    }
    None
}

fn exec_parse_mode(s: &[u8], i: usize) -> (r: Option<(MotionRequestMode, usize)>)
    ensures
        match r {
            Some(v) => parse_mode(s@, i as int) == Some((v.0, v.1 as int)) && v.1 <= s@.len(),
            None => parse_mode(s@, i as int) is None,
        },
{
    proof {
        reveal_strlit("Velocity");
        reveal_strlit("Position");
        reveal_strlit("Stop");
    }
    if let Some(j) = exec_expect_lit(s, i, "Velocity") {
        return Some((MotionRequestMode::Velocity, j));
    }
    if let Some(j) = exec_expect_lit(s, i, "Position") {
        return Some((MotionRequestMode::Position, j));
    }
    if let Some(j) = exec_expect_lit(s, i, "Stop") {
        return Some((MotionRequestMode::Stop, j));
    }
    None
}

fn exec_parse_kv(s: &[u8], i: usize) -> (r: Option<(DiagnosticKeyValue, usize)>)
    ensures
        match r {
            Some(v) => {
                &&& parse_kv(s@, i as int) == Some((v.0@, v.1 as int))
                &&& v.1 <= s@.len()
                &&& v.0@.wf()
            },
            None => parse_kv(s@, i as int) is None,
        },
{
    proof {
        reveal_strlit("key");
        reveal_strlit("value");
        assert(hdr(5, 2) =~= seq![0xA2u8]);
    }
    let j0 = match exec_expect_byte(s, i, 0xA2) {
        Some(j) => j,
        None => {
            return None;
        },
    };
    let j1 = match exec_expect_lit(s, j0, "key") {
        Some(j) => j,
        None => {
            return None;
        },
    };
    let (key, j2) = match exec_parse_text(s, j1, MAX_KEY_VALUE_LEN) {
        Some(v) => v,
        None => {
            return None;
        },
    };
    let j3 = match exec_expect_lit(s, j2, "value") {
        Some(j) => j,
        None => {
            return None;
        },
    };
    let (value, j4) = match exec_parse_text(s, j3, MAX_KEY_VALUE_LEN) {
        Some(v) => v,
        None => {
            return None;
        },
    };
    Some((DiagnosticKeyValue { key, value }, j4))
}

fn exec_parse_kv_list(s: &[u8], i: usize, count: u64) -> (r: Option<(Vec<DiagnosticKeyValue>, usize)>)
    requires
        count <= 8,
    ensures
        match r {
            Some(v) => {
                &&& parse_kv_list(s@, i as int, count as nat) == Some(
                    (v.0@.map_values(|kv: DiagnosticKeyValue| kv@), v.1 as int),
                )
                &&& v.0@.len() == count
                &&& forall|t: int| 0 <= t < v.0@.len() ==> (#[trigger] v.0@[t]@).wf()
            },
            None => parse_kv_list(s@, i as int, count as nat) is None,
        },
{
    let mut out: Vec<DiagnosticKeyValue> = Vec::new();
    let mut cur = i;
    let mut k: u64 = 0;
    while k < count
        invariant
            k <= count,
            out@.len() == k,
            forall|t: int| 0 <= t < out@.len() ==> (#[trigger] out@[t]@).wf(),
            parse_kv_list(s@, i as int, count as nat) == (match parse_kv_list(
                s@,
                cur as int,
                (count - k) as nat,
            ) {
                Some((rest, j)) => Some(
                    ((out@.map_values(|kv: DiagnosticKeyValue| kv@) + rest, j)),
                ),
                None => None,
            }),
        decreases count - k,
    {
        let ghost pre_views = out@.map_values(|kv: DiagnosticKeyValue| kv@);
        match exec_parse_kv(s, cur) {
            None => {
                return None;
            },
            Some((kv, j2)) => {
                let ghost kvv = kv@;
                out.push(kv);
                proof {
                    assert(out@.map_values(|kv: DiagnosticKeyValue| kv@) =~= pre_views.push(kvv));
                    match parse_kv_list(s@, j2 as int, (count - k - 1) as nat) {
                        Some((rest, j)) => {
                            assert(parse_kv_list(s@, cur as int, (count - k) as nat) == Some::<(
                                Seq<KeyValueView>,
                                int,
                            )>((seq![kvv] + rest, j)));
                            assert(pre_views + (seq![kvv] + rest) =~= pre_views.push(kvv) + rest);
                        },
                        None => {
                            assert(parse_kv_list(s@, cur as int, (count - k) as nat) is None);
                        },
                    }
                }
                cur = j2;
                k = k + 1;
            },
        }
    }
    proof {
        assert(parse_kv_list(s@, cur as int, 0) == Some::<(Seq<KeyValueView>, int)>((
            Seq::<KeyValueView>::empty(),
            cur as int,
        )));
        assert(out@.map_values(|kv: DiagnosticKeyValue| kv@) + Seq::<KeyValueView>::empty()
            =~= out@.map_values(|kv: DiagnosticKeyValue| kv@));
    }
    Some((out, cur))
}

fn exec_parse_topics_list(s: &[u8], i: usize, count: u64) -> (r: Option<(Vec<String>, usize)>)
    requires
        count <= 8,
    ensures
        match r {
            Some(v) => {
                &&& parse_topics_list(s@, i as int, count as nat) == Some(
                    (v.0@.map_values(|t: String| t@), v.1 as int),
                )
                &&& v.0@.len() == count
                &&& forall|t: int|
                    0 <= t < v.0@.len() ==> bounded_ascii(
                        (#[trigger] v.0@[t])@,
                        MAX_TOPIC_LEN as int,
                    )
            },
            None => parse_topics_list(s@, i as int, count as nat) is None,
        },
{
    let mut out: Vec<String> = Vec::new();
    let mut cur = i;
    let mut k: u64 = 0;
    while k < count
        invariant
            k <= count,
            out@.len() == k,
            forall|t: int|
                0 <= t < out@.len() ==> bounded_ascii((#[trigger] out@[t])@, MAX_TOPIC_LEN as int),
            parse_topics_list(s@, i as int, count as nat) == (match parse_topics_list(
                s@,
                cur as int,
                (count - k) as nat,
            ) {
                Some((rest, j)) => Some(((out@.map_values(|t: String| t@) + rest, j))),
                None => None,
            }),
        decreases count - k,
    {
        let ghost pre_views = out@.map_values(|t: String| t@);
        match exec_parse_text(s, cur, MAX_TOPIC_LEN) {
            None => {
                return None;
            },
            Some((topic, j2)) => {
                let ghost tv = topic@;
                out.push(topic);
                proof {
                    assert(out@.map_values(|t: String| t@) =~= pre_views.push(tv));
                    match parse_topics_list(s@, j2 as int, (count - k - 1) as nat) {
                        Some((rest, j)) => {
                            assert(parse_topics_list(s@, cur as int, (count - k) as nat) == Some::<
                                (Seq<Seq<char>>, int),
                            >((seq![tv] + rest, j)));
                            assert(pre_views + (seq![tv] + rest) =~= pre_views.push(tv) + rest);
                        },
                        None => {
                            assert(parse_topics_list(s@, cur as int, (count - k) as nat) is None);
                        },
                    }
                }
                cur = j2;
                k = k + 1;
            },
        }
    }
    proof {
        assert(parse_topics_list(s@, cur as int, 0) == Some::<(Seq<Seq<char>>, int)>((
            Seq::<Seq<char>>::empty(),
            cur as int,
        )));
        assert(out@.map_values(|t: String| t@) + Seq::<Seq<char>>::empty() =~= out@.map_values(
            |t: String| t@,
        ));
    }
    Some((out, cur))
}

fn exec_parse_clock_request(s: &[u8], i: usize) -> (r: Option<(ClockRequest, usize)>)
    ensures
        match r {
            Some(v) => parse_clock_request(s@, i as int) == Some((v.0, v.1 as int)),
            None => parse_clock_request(s@, i as int) is None,
        },
{
    proof {
        reveal_strlit("request_time");
        assert(hdr(5, 1) =~= seq![0xA1u8]);
    }
    let j0 = match exec_expect_byte(s, i, 0xA1) {
        Some(j) => j,
        None => {
            return None;
        },
    };
    let j1 = match exec_expect_lit(s, j0, "request_time") {
        Some(j) => j,
        None => {
            return None;
        },
    };
    match exec_parse_hdr(s, j1, 0) {
        Some((rt, j2)) => Some((ClockRequest { request_time: rt }, j2)),
        None => None,
    }
}

fn exec_parse_clock_response(s: &[u8], i: usize) -> (r: Option<(ClockResponse, usize)>)
    ensures
        match r {
            Some(v) => parse_clock_response(s@, i as int) == Some((v.0, v.1 as int)),
            None => parse_clock_response(s@, i as int) is None,
        },
{
    proof {
        reveal_strlit("request_time");
        reveal_strlit("received_time");
        assert(hdr(5, 2) =~= seq![0xA2u8]);
    }
    let j0 = match exec_expect_byte(s, i, 0xA2) {
        Some(j) => j,
        None => {
            return None;
        },
    };
    let j1 = match exec_expect_lit(s, j0, "request_time") {
        Some(j) => j,
        None => {
            return None;
        },
    };
    let (rt, j2) = match exec_parse_hdr(s, j1, 0) {
        Some(v) => v,
        None => {
            return None;
        },
    };
    let j3 = match exec_expect_lit(s, j2, "received_time") {
        Some(j) => j,
        None => {
            return None;
        },
    };
    match exec_parse_hdr(s, j3, 0) {
        Some((rv, j4)) => Some((ClockResponse { request_time: rt, received_time: rv }, j4)),
        None => None,
    }
}

fn exec_parse_diagnostic(s: &[u8], i: usize) -> (r: Option<(DiagnosticMsg, usize)>)
    ensures
        match r {
            Some(v) => parse_diagnostic(s@, i as int) == Some((v.0@, v.1 as int)) && v.0@.wf(),
            None => parse_diagnostic(s@, i as int) is None,
        },
{
    proof {
        reveal_strlit("level");
        reveal_strlit("name");
        reveal_strlit("message");
        reveal_strlit("values");
        assert(hdr(5, 4) =~= seq![0xA4u8]);
    }
    let j0 = match exec_expect_byte(s, i, 0xA4) {
        Some(j) => j,
        None => {
            return None;
        },
    };
    let j1 = match exec_expect_lit(s, j0, "level") {
        Some(j) => j,
        None => {
            return None;
        },
    };
    let (level, j2) = match exec_parse_status(s, j1) {
        Some(v) => v,
        None => {
            return None;
        },
    };
    let j3 = match exec_expect_lit(s, j2, "name") {
        Some(j) => j,
        None => {
            return None;
        },
    };
    let (name, j4) = match exec_parse_text(s, j3, MAX_NAME_LEN) {
        Some(v) => v,
        None => {
            return None;
        },
    };
    let j5 = match exec_expect_lit(s, j4, "message") {
        Some(j) => j,
        None => {
            return None;
        },
    };
    let (message, j6) = match exec_parse_text(s, j5, MAX_MESSAGE_LEN) {
        Some(v) => v,
        None => {
            return None;
        },
    };
    let j7 = match exec_expect_lit(s, j6, "values") {
        Some(j) => j,
        None => {
            return None;
        },
    };
    let (n, j8) = match exec_parse_hdr(s, j7, 4) {
        Some(v) => v,
        None => {
            return None;
        },
    };
    if n > 8 {
        return None;
    }
    match exec_parse_kv_list(s, j8, n) {
        Some((values, j9)) => {
            let msg = DiagnosticMsg { level, name, message, values };
            assert(msg@.wf());
            Some((msg, j9))
        },
        None => None,
    }
}

fn exec_parse_odometry(s: &[u8], i: usize) -> (r: Option<(OdometryDelta, usize)>)
    ensures
        match r {
            Some(v) => parse_odometry(s@, i as int) == Some((v.0, v.1 as int)),
            None => parse_odometry(s@, i as int) is None,
        },
{
    proof {
        reveal_strlit("start_time");
        reveal_strlit("end_time");
        reveal_strlit("delta_position");
        reveal_strlit("delta_orientation");
        assert(hdr(5, 4) =~= seq![0xA4u8]);
    }
    let j0 = match exec_expect_byte(s, i, 0xA4) {
        Some(j) => j,
        None => {
            return None;
        },
    };
    let j1 = match exec_expect_lit(s, j0, "start_time") {
        Some(j) => j,
        None => {
            return None;
        },
    };
    let (st, j2) = match exec_parse_hdr(s, j1, 0) {
        Some(v) => v,
        None => {
            return None;
        },
    };
    let j3 = match exec_expect_lit(s, j2, "end_time") {
        Some(j) => j,
        None => {
            return None;
        },
    };
    let (et, j4) = match exec_parse_hdr(s, j3, 0) {
        Some(v) => v,
        None => {
            return None;
        },
    };
    let j5 = match exec_expect_lit(s, j4, "delta_position") {
        Some(j) => j,
        None => {
            return None;
        },
    };
    let (dp, j6) = match exec_parse_pos2(s, j5) {
        Some(v) => v,
        None => {
            return None;
        },
    };
    let j7 = match exec_expect_lit(s, j6, "delta_orientation") {
        Some(j) => j,
        None => {
            return None;
        },
    };
    match exec_parse_f32(s, j7) {
        Some((dor, j8)) => Some(
            (
                OdometryDelta {
                    start_time: st,
                    end_time: et,
                    delta_position: dp,
                    delta_orientation: dor,
                },
                j8,
            ),
        ),
        None => None,
    }
}

fn exec_parse_subscription(s: &[u8], i: usize) -> (r: Option<(SubscriptionRequest, usize)>)
    ensures
        match r {
            Some(v) => parse_subscription(s@, i as int) == Some((v.0@, v.1 as int)) && v.0@.wf(),
            None => parse_subscription(s@, i as int) is None,
        },
{
    proof {
        reveal_strlit("topics");
        assert(hdr(5, 1) =~= seq![0xA1u8]);
    }
    let j0 = match exec_expect_byte(s, i, 0xA1) {
        Some(j) => j,
        None => {
            return None;
        },
    };
    let j1 = match exec_expect_lit(s, j0, "topics") {
        Some(j) => j,
        None => {
            return None;
        },
    };
    let (n, j2) = match exec_parse_hdr(s, j1, 4) {
        Some(v) => v,
        None => {
            return None;
        },
    };
    if n > 8 {
        return None;
    }
    match exec_parse_topics_list(s, j2, n) {
        Some((topics, j3)) => {
            let req = SubscriptionRequest { topics };
            assert(req@.wf());
            Some((req, j3))
        },
        None => None,
    }
}

fn exec_parse_position(s: &[u8], i: usize) -> (r: Option<(PositionEstimate, usize)>)
    ensures
        match r {
            Some(v) => parse_position(s@, i as int) == Some((v.0, v.1 as int)),
            None => parse_position(s@, i as int) is None,
        },
{
    proof {
        reveal_strlit("timestamp");
        reveal_strlit("position");
        reveal_strlit("orientation");
        assert(hdr(5, 3) =~= seq![0xA3u8]);
    }
    let j0 = match exec_expect_byte(s, i, 0xA3) {
        Some(j) => j,
        None => {
            return None;
        },
    };
    let j1 = match exec_expect_lit(s, j0, "timestamp") {
        Some(j) => j,
        None => {
            return None;
        },
    };
    let (ts, j2) = match exec_parse_hdr(s, j1, 0) {
        Some(v) => v,
        None => {
            return None;
        },
    };
    let j3 = match exec_expect_lit(s, j2, "position") {
        Some(j) => j,
        None => {
            return None;
        },
    };
    let (pos, j4) = match exec_parse_pos2(s, j3) {
        Some(v) => v,
        None => {
            return None;
        },
    };
    let j5 = match exec_expect_lit(s, j4, "orientation") {
        Some(j) => j,
        None => {
            return None;
        },
    };
    match exec_parse_f32(s, j5) {
        Some((ori, j6)) => Some(
            (PositionEstimate { timestamp: ts, position: pos, orientation: ori }, j6),
        ),
        None => None,
    }
}

fn exec_parse_velocity(s: &[u8], i: usize) -> (r: Option<(MotionVelocityRequest, usize)>)
    ensures
        match r {
            Some(v) => parse_velocity(s@, i as int) == Some((v.0, v.1 as int)),
            None => parse_velocity(s@, i as int) is None,
        },
{
    proof {
        reveal_strlit("linear_velocity");
        reveal_strlit("angular_velocity");
        assert(hdr(5, 2) =~= seq![0xA2u8]);
    }
    let j0 = match exec_expect_byte(s, i, 0xA2) {
        Some(j) => j,
        None => {
            return None;
        },
    };
    let j1 = match exec_expect_lit(s, j0, "linear_velocity") {
        Some(j) => j,
        None => {
            return None;
        },
    };
    let (lv, j2) = match exec_parse_f32(s, j1) {
        Some(v) => v,
        None => {
            return None;
        },
    };
    let j3 = match exec_expect_lit(s, j2, "angular_velocity") {
        Some(j) => j,
        None => {
            return None;
        },
    };
    match exec_parse_f32(s, j3) {
        Some((av, j4)) => Some(
            (MotionVelocityRequest { linear_velocity: lv, angular_velocity: av }, j4),
        ),
        None => None,
    }
}

fn exec_parse_target(s: &[u8], i: usize) -> (r: Option<(MotionTargetRequest, usize)>)
    ensures
        match r {
            Some(v) => parse_target(s@, i as int) == Some((v.0, v.1 as int)),
            None => parse_target(s@, i as int) is None,
        },
{
    proof {
        reveal_strlit("linear");
        reveal_strlit("angular");
        reveal_strlit("motion_mode");
        assert(hdr(5, 3) =~= seq![0xA3u8]);
    }
    let j0 = match exec_expect_byte(s, i, 0xA3) {
        Some(j) => j,
        None => {
            return None;
        },
    };
    let j1 = match exec_expect_lit(s, j0, "linear") {
        Some(j) => j,
        None => {
            return None;
        },
    };
    let (lin, j2) = match exec_parse_lin2(s, j1) {
        Some(v) => v,
        None => {
            return None;
        },
    };
    let j3 = match exec_expect_lit(s, j2, "angular") {
        Some(j) => j,
        None => {
            return None;
        },
    };
    let (ang, j4) = match exec_parse_f64(s, j3) {
        Some(v) => v,
        None => {
            return None;
        },
    };
    let j5 = match exec_expect_lit(s, j4, "motion_mode") {
        Some(j) => j,
        None => {
            return None;
        },
    };
    match exec_parse_mode(s, j5) {
        Some((mode, j6)) => Some(
            (MotionTargetRequest { linear: lin, angular: ang, motion_mode: mode }, j6),
        ),
        None => None,
    }
}

#[verifier::rlimit(100)]
fn exec_parse_data(s: &[u8], i: usize) -> (r: Option<(PacketData, usize)>)
    ensures
        match r {
            Some(v) => parse_data(s@, i as int) == Some((v.0@, v.1 as int)) && v.0@.wf(),
            None => parse_data(s@, i as int) is None,
        },
{
    proof {
        reveal_strlit("ClockRequest");
        reveal_strlit("ClockResponse");
        reveal_strlit("DiagnosticMsg");
        reveal_strlit("OdometryDelta");
        reveal_strlit("SubscriptionRequest");
        reveal_strlit("PositionEstimate");
        reveal_strlit("MotionVelocityRequest");
        reveal_strlit("MotionTargetRequest");
        assert(hdr(5, 1) =~= seq![0xA1u8]);
    }
    let j = match exec_expect_byte(s, i, 0xA1) {
        Some(j) => j,
        None => {
            return None;
        },
    };
    if let Some(j1) = exec_expect_lit(s, j, "ClockRequest") {
        return match exec_parse_clock_request(s, j1) {
            Some((v, j2)) => Some((PacketData::ClockRequest(v), j2)),
            None => None,
        };
    }
    if let Some(j1) = exec_expect_lit(s, j, "ClockResponse") {
        return match exec_parse_clock_response(s, j1) {
            Some((v, j2)) => Some((PacketData::ClockResponse(v), j2)),
            None => None,
        };
    }
    if let Some(j1) = exec_expect_lit(s, j, "DiagnosticMsg") {
        return match exec_parse_diagnostic(s, j1) {
            Some((v, j2)) => Some((PacketData::DiagnosticMsg(v), j2)),
            None => None,
        };
    }
    if let Some(j1) = exec_expect_lit(s, j, "OdometryDelta") {
        return match exec_parse_odometry(s, j1) {
            Some((v, j2)) => Some((PacketData::OdometryDelta(v), j2)),
            None => None,
        };
    }
    if let Some(j1) = exec_expect_lit(s, j, "SubscriptionRequest") {
        return match exec_parse_subscription(s, j1) {
            Some((v, j2)) => Some((PacketData::SubscriptionRequest(v), j2)),
            None => None,
        };
    }
    if let Some(j1) = exec_expect_lit(s, j, "PositionEstimate") {
        return match exec_parse_position(s, j1) {
            Some((v, j2)) => Some((PacketData::PositionEstimate(v), j2)),
            None => None,
        };
    }
    if let Some(j1) = exec_expect_lit(s, j, "MotionVelocityRequest") {
        return match exec_parse_velocity(s, j1) {
            Some((v, j2)) => Some((PacketData::MotionVelocityRequest(v), j2)),
            None => None,
        };
    }
    if let Some(j1) = exec_expect_lit(s, j, "MotionTargetRequest") {
        return match exec_parse_target(s, j1) {
            Some((v, j2)) => Some((PacketData::MotionTargetRequest(v), j2)),
            None => None,
        };
    }
    None
}

/// Decode an envelope from exactly the language of [`parse_envelope`]:
/// the canonical CBOR encoding of the catalog, consumed in full.
#[verifier::rlimit(100)]
pub fn decode_envelope(s: &[u8]) -> (r: Option<PacketFormat>)
    ensures
        match r {
            Some(e) => parse_envelope(s@) == Some(e@) && e.wf(),
            None => parse_envelope(s@) is None,
        },
{
    proof {
        reveal_strlit("to");
        reveal_strlit("from");
        reveal_strlit("data");
        reveal_strlit("time");
        reveal_strlit("id");
        assert(hdr(5, 5) =~= seq![0xA5u8]);
    }
    let j0 = match exec_expect_byte(s, 0, 0xA5) {
        Some(j) => j,
        None => {
            return None;
        },
    };
    let j1 = match exec_expect_lit(s, j0, "to") {
        Some(j) => j,
        None => {
            return None;
        },
    };
    let (to, j2) = match exec_parse_opt_addr(s, j1) {
        Some(v) => v,
        None => {
            return None;
        },
    };
    let j3 = match exec_expect_lit(s, j2, "from") {
        Some(j) => j,
        None => {
            return None;
        },
    };
    let (from, j4) = match exec_parse_opt_addr(s, j3) {
        Some(v) => v,
        None => {
            return None;
        },
    };
    let j5 = match exec_expect_lit(s, j4, "data") {
        Some(j) => j,
        None => {
            return None;
        },
    };
    let (data, j6) = match exec_parse_data(s, j5) {
        Some(v) => v,
        None => {
            return None;
        },
    };
    let j7 = match exec_expect_lit(s, j6, "time") {
        Some(j) => j,
        None => {
            return None;
        },
    };
    let (time, j8) = match exec_parse_hdr(s, j7, 0) {
        Some(v) => v,
        None => {
            return None;
        },
    };
    let j9 = match exec_expect_lit(s, j8, "id") {
        Some(j) => j,
        None => {
            return None;
        },
    };
    let (id, j10) = match exec_parse_hdr(s, j9, 0) {
        Some(v) => v,
        None => {
            return None;
        },
    };
    if id > 0xFFFFFFFF {
        return None;
    }
    if j10 != s.len() {
        return None;
    }
    Some(PacketFormat { to, from, data, time, id: id as u32 })
}

} // verus!
