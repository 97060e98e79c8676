//! The structured-binary layer of the wire format: a CBOR encoding of the
//! message catalog.
//!
//! Every envelope is encoded as a CBOR map with text keys in declaration
//! order; payload variants are maps of one entry keyed by the variant tag;
//! unit variants are text strings; integers use the shortest header form;
//! floating-point readings are written as their IEEE 754 bit patterns.
//! [`envelope_bytes`] is the single definition of the byte layout, the
//! encoder produces exactly those bytes, and the decoder accepts exactly
//! them ([`parse_envelope`]); [`lemma_envelope_round_trip`] proves the two
//! agree.

use vstd::prelude::*;

use crate::topics::ClockRequest;
use crate::topics::ClockResponse;
use crate::topics::DiagnosticKeyValue;
use crate::topics::DiagnosticMsg;
use crate::topics::DiagnosticMsgView;
use crate::topics::DiagnosticStatus;
use crate::topics::FloatBits32;
use crate::topics::FloatBits64;
use crate::topics::KeyValueView;
use crate::topics::MotionRequestMode;
use crate::topics::MotionTargetRequest;
use crate::topics::MotionVelocityRequest;
use crate::topics::OdometryDelta;
use crate::topics::PacketData;
use crate::topics::PacketDataView;
use crate::topics::PacketFormat;
use crate::topics::PacketFormatView;
use crate::topics::PositionEstimate;
use crate::topics::SubscriptionRequest;
use crate::topics::SubscriptionRequestView;
use crate::topics::MAX_KEY_VALUE_LEN;
use crate::topics::MAX_MESSAGE_LEN;
use crate::topics::MAX_NAME_LEN;
use crate::topics::MAX_TOPIC_LEN;
use crate::topics::bounded_ascii;

verus! {

use vstd::utf8::is_ascii_chars;

/// Big-endian bytes of a 16-bit value.
pub open spec fn be16(n: u16) -> Seq<u8> {
    seq![(n / 256) as u8, (n % 256) as u8]
}

/// Big-endian bytes of a 32-bit value.
pub open spec fn be32(n: u32) -> Seq<u8> {
    seq![
        (n / 0x1000000) as u8,
        ((n / 0x10000) % 256) as u8,
        ((n / 256) % 256) as u8,
        (n % 256) as u8,
    ]
}

/// Big-endian bytes of a 64-bit value.
pub open spec fn be64(n: u64) -> Seq<u8> {
    be32((n / 0x100000000) as u32) + be32((n % 0x100000000) as u32)
}

/// Canonical CBOR header: major type `major` with argument `n` in the
/// shortest form.
pub open spec fn hdr(major: u8, n: u64) -> Seq<u8>
    recommends
        major < 8,
{
    if n < 24 {
        seq![(major * 32 + n) as u8]
    } else if n < 256 {
        seq![(major * 32 + 24) as u8, n as u8]
    } else if n < 65536 {
        seq![(major * 32 + 25) as u8] + be16(n as u16)
    } else if n < 0x100000000 {
        seq![(major * 32 + 26) as u8] + be32(n as u32)
    } else {
        seq![(major * 32 + 27) as u8] + be64(n)
    }
}

/// An ASCII string as its bytes.
pub open spec fn ascii_bytes(s: Seq<char>) -> Seq<u8> {
    Seq::new(s.len(), |i: int| s[i] as u8)
}

/// CBOR text string of an ASCII string.
pub open spec fn text(s: Seq<char>) -> Seq<u8>
    recommends
        is_ascii_chars(s),
{
    hdr(3, s.len() as u64) + ascii_bytes(s)
}

/// CBOR unsigned integer.
pub open spec fn uint(n: u64) -> Seq<u8> {
    hdr(0, n)
}

/// CBOR `null`.
pub open spec fn null_bytes() -> Seq<u8> {
    seq![0xF6u8]
}

/// CBOR single-precision float, written from its bit pattern.
pub open spec fn f32_bytes(v: FloatBits32) -> Seq<u8> {
    seq![0xFAu8] + be32(v.bits)
}

/// CBOR double-precision float, written from its bit pattern.
pub open spec fn f64_bytes(v: FloatBits64) -> Seq<u8> {
    seq![0xFBu8] + be64(v.bits)
}

/// An optional address: `null` or an unsigned integer.
pub open spec fn opt_addr_bytes(v: Option<u16>) -> Seq<u8> {
    match v {
        Option::None => null_bytes(),
        Option::Some(a) => uint(a as u64),
    }
}

/// A pair of single-precision readings as a two-element array.
pub open spec fn pos2_bytes(v: (FloatBits32, FloatBits32)) -> Seq<u8> {
    hdr(4, 2) + f32_bytes(v.0) + f32_bytes(v.1)
}

/// A pair of double-precision readings as a two-element array.
pub open spec fn lin2_bytes(v: (FloatBits64, FloatBits64)) -> Seq<u8> {
    hdr(4, 2) + f64_bytes(v.0) + f64_bytes(v.1)
}

/// The wire tag of a diagnostic severity.
pub open spec fn status_text(s: DiagnosticStatus) -> Seq<char> {
    match s {
        DiagnosticStatus::Okay => "Ok"@,
        DiagnosticStatus::Warn => "Warn"@,
        DiagnosticStatus::Error => "Error"@,
        DiagnosticStatus::Stale => "Stale"@,
    }
}

/// The wire tag of a motion request mode.
pub open spec fn mode_text(m: MotionRequestMode) -> Seq<char> {
    match m {
        MotionRequestMode::Velocity => "Velocity"@,
        MotionRequestMode::Position => "Position"@,
        MotionRequestMode::Stop => "Stop"@,
    }
}

/// One diagnostic key/value entry as a two-entry map.
pub open spec fn kv_bytes(kv: KeyValueView) -> Seq<u8> {
    hdr(5, 2) + text("key"@) + text(kv.key) + text("value"@) + text(kv.value)
}

/// The elements of a diagnostic value list, concatenated.
pub open spec fn kv_list_bytes(kvs: Seq<KeyValueView>) -> Seq<u8>
    decreases kvs.len(),
{
    if kvs.len() == 0 {
        Seq::<u8>::empty()
    } else {
        kv_bytes(kvs[0]) + kv_list_bytes(kvs.skip(1))
    }
}

/// The elements of a topic list, concatenated.
pub open spec fn topics_list_bytes(ts: Seq<Seq<char>>) -> Seq<u8>
    decreases ts.len(),
{
    if ts.len() == 0 {
        Seq::<u8>::empty()
    } else {
        text(ts[0]) + topics_list_bytes(ts.skip(1))
    }
}

/// Body of a [`ClockRequest`].
pub open spec fn clock_request_bytes(v: ClockRequest) -> Seq<u8> {
    hdr(5, 1) + text("request_time"@) + uint(v.request_time)
}

/// Body of a [`ClockResponse`].
pub open spec fn clock_response_bytes(v: ClockResponse) -> Seq<u8> {
    hdr(5, 2) + text("request_time"@) + uint(v.request_time) + text("received_time"@) + uint(
        v.received_time,
    )
}

/// Body of a [`DiagnosticMsg`].
pub open spec fn diagnostic_bytes(v: DiagnosticMsgView) -> Seq<u8> {
    hdr(5, 4) + text("level"@) + text(status_text(v.level)) + text("name"@) + text(v.name) + text(
        "message"@,
    ) + text(v.message) + text("values"@) + hdr(4, v.values.len() as u64) + kv_list_bytes(v.values)
}

/// Body of an [`OdometryDelta`].
pub open spec fn odometry_bytes(v: OdometryDelta) -> Seq<u8> {
    hdr(5, 4) + text("start_time"@) + uint(v.start_time) + text("end_time"@) + uint(v.end_time)
        + text("delta_position"@) + pos2_bytes(v.delta_position) + text("delta_orientation"@)
        + f32_bytes(v.delta_orientation)
}

/// Body of a [`SubscriptionRequest`].
pub open spec fn subscription_bytes(v: SubscriptionRequestView) -> Seq<u8> {
    hdr(5, 1) + text("topics"@) + hdr(4, v.topics.len() as u64) + topics_list_bytes(v.topics)
}

/// Body of a [`PositionEstimate`].
pub open spec fn position_bytes(v: PositionEstimate) -> Seq<u8> {
    hdr(5, 3) + text("timestamp"@) + uint(v.timestamp) + text("position"@) + pos2_bytes(v.position)
        + text("orientation"@) + f32_bytes(v.orientation)
}

/// Body of a [`MotionVelocityRequest`].
pub open spec fn velocity_bytes(v: MotionVelocityRequest) -> Seq<u8> {
    hdr(5, 2) + text("linear_velocity"@) + f32_bytes(v.linear_velocity) + text("angular_velocity"@)
        + f32_bytes(v.angular_velocity)
}

/// Body of a [`MotionTargetRequest`].
pub open spec fn target_bytes(v: MotionTargetRequest) -> Seq<u8> {
    hdr(5, 3) + text("linear"@) + lin2_bytes(v.linear) + text("angular"@) + f64_bytes(v.angular)
        + text("motion_mode"@) + text(mode_text(v.motion_mode))
}

/// A payload: a one-entry map keyed by the variant tag.
pub open spec fn data_bytes(d: PacketDataView) -> Seq<u8> {
    hdr(5, 1) + match d {
        PacketDataView::ClockRequest(v) => text("ClockRequest"@) + clock_request_bytes(v),
        PacketDataView::ClockResponse(v) => text("ClockResponse"@) + clock_response_bytes(v),
        PacketDataView::DiagnosticMsg(v) => text("DiagnosticMsg"@) + diagnostic_bytes(v),
        PacketDataView::OdometryDelta(v) => text("OdometryDelta"@) + odometry_bytes(v),
        PacketDataView::SubscriptionRequest(v) => text("SubscriptionRequest"@)
            + subscription_bytes(v),
        PacketDataView::PositionEstimate(v) => text("PositionEstimate"@) + position_bytes(v),
        PacketDataView::MotionVelocityRequest(v) => text("MotionVelocityRequest"@) + velocity_bytes(
            v,
        ),
        PacketDataView::MotionTargetRequest(v) => text("MotionTargetRequest"@) + target_bytes(v),
    }
}

/// The whole envelope: a five-entry map in declaration order.
pub open spec fn envelope_bytes(e: PacketFormatView) -> Seq<u8> {
    hdr(5, 5) + text("to"@) + opt_addr_bytes(e.to) + text("from"@) + opt_addr_bytes(e.from) + text(
        "data"@,
    ) + data_bytes(e.data) + text("time"@) + uint(e.time) + text("id"@) + uint(e.id as u64)
}

/// The numeric value of four big-endian bytes of `s` starting at `i`.
pub open spec fn be32_val(s: Seq<u8>, i: int) -> u64 {
    (s[i] * 0x1000000 + s[i + 1] * 0x10000 + s[i + 2] * 256 + s[i + 3]) as u64
}

/// The numeric value of eight big-endian bytes of `s` starting at `i`.
pub open spec fn be64_val(s: Seq<u8>, i: int) -> u64 {
    (be32_val(s, i) * 0x100000000 + be32_val(s, i + 4)) as u64
}

/// Strict parse of a canonical CBOR header of major type `major` at `i`:
/// the value and the position after it. Non-shortest forms are rejected.
pub open spec fn parse_hdr(s: Seq<u8>, i: int, major: u8) -> Option<(u64, int)> {
    if !(0 <= i < s.len()) {
        None
    } else {
        let b = s[i];
        if b / 32 != major {
            None
        } else {
            let ai = b % 32;
            if ai < 24 {
                Some(((ai as u64, i + 1)))
            } else if ai == 24 {
                if i + 1 < s.len() && s[i + 1] >= 24 {
                    Some(((s[i + 1] as u64, i + 2)))
                } else {
                    None
                }
            } else if ai == 25 {
                if i + 2 < s.len() && s[i + 1] * 256 + s[i + 2] >= 256 {
                    Some((((s[i + 1] * 256 + s[i + 2]) as u64, i + 3)))
                } else {
                    None
                }
            } else if ai == 26 {
                if i + 4 < s.len() && be32_val(s, i + 1) >= 65536 {
                    Some(((be32_val(s, i + 1), i + 5)))
                } else {
                    None
                }
            } else if ai == 27 {
                if i + 8 < s.len() && be64_val(s, i + 1) >= 0x100000000 {
                    Some(((be64_val(s, i + 1), i + 9)))
                } else {
                    None
                }
            } else {
                None
            }
        }
    }
}

/// Expect the exact bytes `lit` at `i`: the position after them.
pub open spec fn expect(s: Seq<u8>, i: int, lit: Seq<u8>) -> Option<int> {
    if 0 <= i && i + lit.len() <= s.len() && s.subrange(i, i + lit.len()) == lit {
        Some(i + lit.len())
    } else {
        None
    }
}

/// ASCII bytes as characters.
pub open spec fn chars_of(bs: Seq<u8>) -> Seq<char> {
    Seq::new(bs.len(), |i: int| bs[i] as char)
}

/// Parse a text string of at most `max` ASCII characters at `i`.
pub open spec fn parse_text(s: Seq<u8>, i: int, max: int) -> Option<(Seq<char>, int)> {
    match parse_hdr(s, i, 3) {
        Option::Some((n, j)) => {
            if n <= max && j + n <= s.len() && (forall|k: int| j <= k < j + n ==> s[k] < 128) {
                Option::Some((chars_of(s.subrange(j, j + n)), j + n))
            } else {
                Option::None
            }
        },
        Option::None => Option::None,
    }
}

/// Parse an optional address: `null` or an unsigned integer that fits 16
/// bits.
pub open spec fn parse_opt_addr(s: Seq<u8>, i: int) -> Option<(Option<u16>, int)> {
    if 0 <= i < s.len() && s[i] == 0xF6 {
        Option::Some((Option::None, i + 1))
    } else {
        match parse_hdr(s, i, 0) {
            Option::Some((n, j)) => {
                if n <= 65535 {
                    Option::Some((Option::Some(n as u16), j))
                } else {
                    Option::None
                }
            },
            Option::None => Option::None,
        }
    }
}

/// Parse a single-precision float as its bit pattern.
pub open spec fn parse_f32(s: Seq<u8>, i: int) -> Option<(FloatBits32, int)> {
    if 0 <= i && i + 4 < s.len() && s[i] == 0xFA {
        Some((FloatBits32 { bits: be32_val(s, i + 1) as u32 }, i + 5))
    } else {
        None
    }
}

/// Parse a double-precision float as its bit pattern.
pub open spec fn parse_f64(s: Seq<u8>, i: int) -> Option<(FloatBits64, int)> {
    if 0 <= i && i + 8 < s.len() && s[i] == 0xFB {
        Some((FloatBits64 { bits: be64_val(s, i + 1) }, i + 9))
    } else {
        None
    }
}

/// Parse a pair of single-precision floats written as a two-element
/// array.
pub open spec fn parse_pos2(s: Seq<u8>, i: int) -> Option<((FloatBits32, FloatBits32), int)> {
    match expect(s, i, hdr(4, 2)) {
        Some(j) => match parse_f32(s, j) {
            Some((x, j1)) => match parse_f32(s, j1) {
                Some((y, j2)) => Some((((x, y), j2))),
                None => None,
            },
            None => None,
        },
        None => None,
    }
}

/// Parse a pair of double-precision floats written as a two-element
/// array.
pub open spec fn parse_lin2(s: Seq<u8>, i: int) -> Option<((FloatBits64, FloatBits64), int)> {
    match expect(s, i, hdr(4, 2)) {
        Some(j) => match parse_f64(s, j) {
            Some((x, j1)) => match parse_f64(s, j1) {
                Some((y, j2)) => Some((((x, y), j2))),
                None => None,
            },
            None => None,
        },
        None => None,
    }
}

/// Parse a diagnostic severity tag.
pub open spec fn parse_status(s: Seq<u8>, i: int) -> Option<(DiagnosticStatus, int)> {
    if expect(s, i, text("Ok"@)) is Some {
        Some((DiagnosticStatus::Okay, expect(s, i, text("Ok"@))->Some_0))
    } else if expect(s, i, text("Warn"@)) is Some {
        Some((DiagnosticStatus::Warn, expect(s, i, text("Warn"@))->Some_0))
    } else if expect(s, i, text("Error"@)) is Some {
        Some((DiagnosticStatus::Error, expect(s, i, text("Error"@))->Some_0))
    } else if expect(s, i, text("Stale"@)) is Some {
        Some((DiagnosticStatus::Stale, expect(s, i, text("Stale"@))->Some_0))
    } else {
        None
    }
}

/// Parse a motion request mode tag.
pub open spec fn parse_mode(s: Seq<u8>, i: int) -> Option<(MotionRequestMode, int)> {
    if expect(s, i, text("Velocity"@)) is Some {
        Some((MotionRequestMode::Velocity, expect(s, i, text("Velocity"@))->Some_0))
    } else if expect(s, i, text("Position"@)) is Some {
        Some((MotionRequestMode::Position, expect(s, i, text("Position"@))->Some_0))
    } else if expect(s, i, text("Stop"@)) is Some {
        Some((MotionRequestMode::Stop, expect(s, i, text("Stop"@))->Some_0))
    } else {
        None
    }
}

/// Parse one diagnostic key/value entry.
pub open spec fn parse_kv(s: Seq<u8>, i: int) -> Option<(KeyValueView, int)> {
    match expect(s, i, hdr(5, 2)) {
        Some(j0) => match expect(s, j0, text("key"@)) {
            Some(j1) => match parse_text(s, j1, MAX_KEY_VALUE_LEN as int) {
                Some((k, j2)) => match expect(s, j2, text("value"@)) {
                    Some(j3) => match parse_text(s, j3, MAX_KEY_VALUE_LEN as int) {
                        Some((v, j4)) => Some((KeyValueView { key: k, value: v }, j4)),
                        None => None,
                    },
                    None => None,
                },
                None => None,
            },
            None => None,
        },
        None => None,
    }
}

/// Parse exactly `count` diagnostic entries.
pub open spec fn parse_kv_list(s: Seq<u8>, i: int, count: nat) -> Option<(Seq<KeyValueView>, int)>
    decreases count,
{
    if count == 0 {
        Some((Seq::<KeyValueView>::empty(), i))
    } else {
        match parse_kv(s, i) {
            Some((kv, j)) => match parse_kv_list(s, j, (count - 1) as nat) {
                Some((rest, j2)) => Some((seq![kv] + rest, j2)),
                None => None,
            },
            None => None,
        }
    }
}

/// Parse exactly `count` topic strings.
pub open spec fn parse_topics_list(s: Seq<u8>, i: int, count: nat) -> Option<(Seq<Seq<char>>, int)>
    decreases count,
{
    if count == 0 {
        Some((Seq::<Seq<char>>::empty(), i))
    } else {
        match parse_text(s, i, MAX_TOPIC_LEN as int) {
            Some((t, j)) => match parse_topics_list(s, j, (count - 1) as nat) {
                Some((rest, j2)) => Some((seq![t] + rest, j2)),
                None => None,
            },
            None => None,
        }
    }
}

/// Parse a [`ClockRequest`] body.
pub open spec fn parse_clock_request(s: Seq<u8>, i: int) -> Option<(ClockRequest, int)> {
    match expect(s, i, hdr(5, 1)) {
        Some(j0) => match expect(s, j0, text("request_time"@)) {
            Some(j1) => match parse_hdr(s, j1, 0) {
                Some((rt, j2)) => Some((ClockRequest { request_time: rt }, j2)),
                None => None,
            },
            None => None,
        },
        None => None,
    }
}

/// Parse a [`ClockResponse`] body.
pub open spec fn parse_clock_response(s: Seq<u8>, i: int) -> Option<(ClockResponse, int)> {
    match expect(s, i, hdr(5, 2)) {
        Some(j0) => match expect(s, j0, text("request_time"@)) {
            Some(j1) => match parse_hdr(s, j1, 0) {
                Some((rt, j2)) => match expect(s, j2, text("received_time"@)) {
                    Some(j3) => match parse_hdr(s, j3, 0) {
                        Some((rv, j4)) => Some(
                            (ClockResponse { request_time: rt, received_time: rv }, j4),
                        ),
                        None => None,
                    },
                    None => None,
                },
                None => None,
            },
            None => None,
        },
        None => None,
    }
}

/// Parse a [`DiagnosticMsg`] body.
pub open spec fn parse_diagnostic(s: Seq<u8>, i: int) -> Option<(DiagnosticMsgView, int)> {
    match expect(s, i, hdr(5, 4)) {
        Some(j0) => match expect(s, j0, text("level"@)) {
            Some(j1) => match parse_status(s, j1) {
                Some((level, j2)) => match expect(s, j2, text("name"@)) {
                    Some(j3) => match parse_text(s, j3, MAX_NAME_LEN as int) {
                        Some((name, j4)) => match expect(s, j4, text("message"@)) {
                            Some(j5) => match parse_text(s, j5, MAX_MESSAGE_LEN as int) {
                                Some((message, j6)) => match expect(s, j6, text("values"@)) {
                                    Some(j7) => match parse_hdr(s, j7, 4) {
                                        Some((n, j8)) => {
                                            if n <= 8 {
                                                match parse_kv_list(s, j8, n as nat) {
                                                    Some((values, j9)) => Some(
                                                        (
                                                            DiagnosticMsgView {
                                                                level,
                                                                name,
                                                                message,
                                                                values,
                                                            },
                                                            j9,
                                                        ),
                                                    ),
                                                    None => None,
                                                }
                                            } else {
                                                None
                                            }
                                        },
                                        None => None,
                                    },
                                    None => None,
                                },
                                None => None,
                            },
                            None => None,
                        },
                        None => None,
                    },
                    None => None,
                },
                None => None,
            },
            None => None,
        },
        None => None,
    }
}

/// Parse an [`OdometryDelta`] body.
pub open spec fn parse_odometry(s: Seq<u8>, i: int) -> Option<(OdometryDelta, int)> {
    match expect(s, i, hdr(5, 4)) {
        Some(j0) => match expect(s, j0, text("start_time"@)) {
            Some(j1) => match parse_hdr(s, j1, 0) {
                Some((st, j2)) => match expect(s, j2, text("end_time"@)) {
                    Some(j3) => match parse_hdr(s, j3, 0) {
                        Some((et, j4)) => match expect(s, j4, text("delta_position"@)) {
                            Some(j5) => match parse_pos2(s, j5) {
                                Some((dp, j6)) => match expect(s, j6, text("delta_orientation"@)) {
                                    Some(j7) => match parse_f32(s, j7) {
                                        Some((dor, j8)) => Some(
                                            (
                                                OdometryDelta {
                                                    start_time: st,
                                                    end_time: et,
                                                    delta_position: dp,
                                                    delta_orientation: dor,
                                                },
                                                j8,
                                            ),
                                        ),
                                        None => None,
                                    },
                                    None => None,
                                },
                                None => None,
                            },
                            None => None,
                        },
                        None => None,
                    },
                    None => None,
                },
                None => None,
            },
            None => None,
        },
        None => None,
    }
}

/// Parse a [`SubscriptionRequest`] body.
pub open spec fn parse_subscription(s: Seq<u8>, i: int) -> Option<(SubscriptionRequestView, int)> {
    match expect(s, i, hdr(5, 1)) {
        Some(j0) => match expect(s, j0, text("topics"@)) {
            Some(j1) => match parse_hdr(s, j1, 4) {
                Some((n, j2)) => {
                    if n <= 8 {
                        match parse_topics_list(s, j2, n as nat) {
                            Some((topics, j3)) => Some((SubscriptionRequestView { topics }, j3)),
                            None => None,
                        }
                    } else {
                        None
                    }
                },
                None => None,
            },
            None => None,
        },
        None => None,
    }
}

/// Parse a [`PositionEstimate`] body.
pub open spec fn parse_position(s: Seq<u8>, i: int) -> Option<(PositionEstimate, int)> {
    match expect(s, i, hdr(5, 3)) {
        Some(j0) => match expect(s, j0, text("timestamp"@)) {
            Some(j1) => match parse_hdr(s, j1, 0) {
                Some((ts, j2)) => match expect(s, j2, text("position"@)) {
                    Some(j3) => match parse_pos2(s, j3) {
                        Some((pos, j4)) => match expect(s, j4, text("orientation"@)) {
                            Some(j5) => match parse_f32(s, j5) {
                                Some((ori, j6)) => Some(
                                    (
                                        PositionEstimate {
                                            timestamp: ts,
                                            position: pos,
                                            orientation: ori,
                                        },
                                        j6,
                                    ),
                                ),
                                None => None,
                            },
                            None => None,
                        },
                        None => None,
                    },
                    None => None,
                },
                None => None,
            },
            None => None,
        },
        None => None,
    }
}

/// Parse a [`MotionVelocityRequest`] body.
pub open spec fn parse_velocity(s: Seq<u8>, i: int) -> Option<(MotionVelocityRequest, int)> {
    match expect(s, i, hdr(5, 2)) {
        Some(j0) => match expect(s, j0, text("linear_velocity"@)) {
            Some(j1) => match parse_f32(s, j1) {
                Some((lv, j2)) => match expect(s, j2, text("angular_velocity"@)) {
                    Some(j3) => match parse_f32(s, j3) {
                        Some((av, j4)) => Some(
                            (
                                MotionVelocityRequest {
                                    linear_velocity: lv,
                                    angular_velocity: av,
                                },
                                j4,
                            ),
                        ),
                        None => None,
                    },
                    None => None,
                },
                None => None,
            },
            None => None,
        },
        None => None,
    }
}

/// Parse a [`MotionTargetRequest`] body.
pub open spec fn parse_target(s: Seq<u8>, i: int) -> Option<(MotionTargetRequest, int)> {
    match expect(s, i, hdr(5, 3)) {
        Some(j0) => match expect(s, j0, text("linear"@)) {
            Some(j1) => match parse_lin2(s, j1) {
                Some((lin, j2)) => match expect(s, j2, text("angular"@)) {
                    Some(j3) => match parse_f64(s, j3) {
                        Some((ang, j4)) => match expect(s, j4, text("motion_mode"@)) {
                            Some(j5) => match parse_mode(s, j5) {
                                Some((mode, j6)) => Some(
                                    (
                                        MotionTargetRequest {
                                            linear: lin,
                                            angular: ang,
                                            motion_mode: mode,
                                        },
                                        j6,
                                    ),
                                ),
                                None => None,
                            },
                            None => None,
                        },
                        None => None,
                    },
                    None => None,
                },
                None => None,
            },
            None => None,
        },
        None => None,
    }
}

/// Parse a payload: a one-entry map keyed by the variant tag.
pub open spec fn parse_data(s: Seq<u8>, i: int) -> Option<(PacketDataView, int)> {
    match expect(s, i, hdr(5, 1)) {
        Some(j) => {
            if expect(s, j, text("ClockRequest"@)) is Some {
                match parse_clock_request(s, expect(s, j, text("ClockRequest"@))->Some_0) {
                    Some((v, j2)) => Some((PacketDataView::ClockRequest(v), j2)),
                    None => None,
                }
            } else if expect(s, j, text("ClockResponse"@)) is Some {
                match parse_clock_response(s, expect(s, j, text("ClockResponse"@))->Some_0) {
                    Some((v, j2)) => Some((PacketDataView::ClockResponse(v), j2)),
                    None => None,
                }
            } else if expect(s, j, text("DiagnosticMsg"@)) is Some {
                match parse_diagnostic(s, expect(s, j, text("DiagnosticMsg"@))->Some_0) {
                    Some((v, j2)) => Some((PacketDataView::DiagnosticMsg(v), j2)),
                    None => None,
                }
            } else if expect(s, j, text("OdometryDelta"@)) is Some {
                match parse_odometry(s, expect(s, j, text("OdometryDelta"@))->Some_0) {
                    Some((v, j2)) => Some((PacketDataView::OdometryDelta(v), j2)),
                    None => None,
                }
            } else if expect(s, j, text("SubscriptionRequest"@)) is Some {
                match parse_subscription(s, expect(s, j, text("SubscriptionRequest"@))->Some_0) {
                    Some((v, j2)) => Some((PacketDataView::SubscriptionRequest(v), j2)),
                    None => None,
                }
            } else if expect(s, j, text("PositionEstimate"@)) is Some {
                match parse_position(s, expect(s, j, text("PositionEstimate"@))->Some_0) {
                    Some((v, j2)) => Some((PacketDataView::PositionEstimate(v), j2)),
                    None => None,
                }
            } else if expect(s, j, text("MotionVelocityRequest"@)) is Some {
                match parse_velocity(s, expect(s, j, text("MotionVelocityRequest"@))->Some_0) {
                    Some((v, j2)) => Some((PacketDataView::MotionVelocityRequest(v), j2)),
                    None => None,
                }
            } else if expect(s, j, text("MotionTargetRequest"@)) is Some {
                match parse_target(s, expect(s, j, text("MotionTargetRequest"@))->Some_0) {
                    Some((v, j2)) => Some((PacketDataView::MotionTargetRequest(v), j2)),
                    None => None,
                }
            } else {
                None
            }
        },
        None => None,
    }
}

/// Parse a whole envelope; the bytes must be consumed exactly.
pub open spec fn parse_envelope(s: Seq<u8>) -> Option<PacketFormatView> {
    match expect(s, 0, hdr(5, 5)) {
        Some(j0) => match expect(s, j0, text("to"@)) {
            Some(j1) => match parse_opt_addr(s, j1) {
                Some((to, j2)) => match expect(s, j2, text("from"@)) {
                    Some(j3) => match parse_opt_addr(s, j3) {
                        Some((from, j4)) => match expect(s, j4, text("data"@)) {
                            Some(j5) => match parse_data(s, j5) {
                                Some((data, j6)) => match expect(s, j6, text("time"@)) {
                                    Some(j7) => match parse_hdr(s, j7, 0) {
                                        Some((time, j8)) => match expect(s, j8, text("id"@)) {
                                            Some(j9) => match parse_hdr(s, j9, 0) {
                                                Some((id, j10)) => {
                                                    if id <= 0xFFFFFFFF && j10 == s.len() {
                                                        Some(
                                                            PacketFormatView {
                                                                to,
                                                                from,
                                                                data,
                                                                time,
                                                                id: id as u32,
                                                            },
                                                        )
                                                    } else {
                                                        None
                                                    }
                                                },
                                                None => None,
                                            },
                                            None => None,
                                        },
                                        None => None,
                                    },
                                    None => None,
                                },
                                None => None,
                            },
                            None => None,
                        },
                        None => None,
                    },
                    None => None,
                },
                None => None,
            },
            None => None,
        },
        None => None,
    }
}

pub(crate) proof fn lemma_index_at(s: Seq<u8>, i: int, end: int, lit: Seq<u8>, k: int)
    requires
        0 <= i,
        end <= s.len(),
        end - i == lit.len(),
        s.subrange(i, end) == lit,
        0 <= k < lit.len(),
    ensures
        s[i + k] == lit[k],
{
    assert(s.subrange(i, end)[k] == s[i + k]);
}

pub(crate) proof fn lemma_peel(s: Seq<u8>, i: int, end: int, a: Seq<u8>, b: Seq<u8>)
    requires
        0 <= i,
        end <= s.len(),
        i + a.len() + b.len() == end,
        s.subrange(i, end) == a + b,
    ensures
        s.subrange(i, i + a.len()) == a,
        s.subrange(i + a.len(), end) == b,
{
    assert forall|k: int| 0 <= k < a.len() implies s.subrange(i, i + a.len())[k] == a[k] by {
        assert(s.subrange(i, end)[k] == s[i + k]);
        assert(s.subrange(i, i + a.len())[k] == s[i + k]);
        assert((a + b)[k] == a[k]);
    }
    assert(s.subrange(i, i + a.len()) =~= a);
    assert forall|k: int| 0 <= k < b.len() implies s.subrange(i + a.len(), end)[k] == b[k] by {
        assert(s.subrange(i, end)[a.len() + k] == s[i + a.len() + k]);
        assert(s.subrange(i + a.len(), end)[k] == s[i + a.len() + k]);
        assert((a + b)[a.len() + k] == b[k]);
    }
    assert(s.subrange(i + a.len(), end) =~= b);
}

proof fn lemma_be32_digits(n: u32)
    ensures
        (n / 0x1000000) * 0x1000000 + ((n / 0x10000) % 256) * 0x10000 + ((n / 256) % 256) * 256 + (
        n % 256) == n,
{
    assert((n / 0x1000000) * 0x1000000 + ((n / 0x10000) % 256) * 0x10000 + ((n / 256) % 256) * 256
        + (n % 256) == n) by (bit_vector);
}

proof fn lemma_parse_hdr_at(s: Seq<u8>, i: int, major: u8, n: u64)
    requires
        major < 8,
        0 <= i,
        i + hdr(major, n).len() <= s.len(),
        s.subrange(i, i + hdr(major, n).len()) == hdr(major, n),
    ensures
        parse_hdr(s, i, major) == Some((n, i + hdr(major, n).len())),
{
    let h = hdr(major, n);
    let end = i + h.len();
    if n < 24 {
        lemma_index_at(s, i, end, h, 0);
        assert(s[i] == (major * 32 + n) as u8);
        assert(s[i] / 32 == major && s[i] % 32 == n);
    } else if n < 256 {
        lemma_index_at(s, i, end, h, 0);
        lemma_index_at(s, i, end, h, 1);
        assert(s[i] == (major * 32 + 24) as u8);
        assert(s[i] / 32 == major && s[i] % 32 == 24);
        assert(s[i + 1] == n as u8);
    } else if n < 65536 {
        lemma_index_at(s, i, end, h, 0);
        lemma_index_at(s, i, end, h, 1);
        lemma_index_at(s, i, end, h, 2);
        assert(s[i] == (major * 32 + 25) as u8);
        assert(s[i] / 32 == major && s[i] % 32 == 25);
        assert(s[i + 1] == (n as u16 / 256) as u8);
        assert(s[i + 2] == (n as u16 % 256) as u8);
        assert(s[i + 1] * 256 + s[i + 2] == n);
    } else if n < 0x100000000 {
        lemma_index_at(s, i, end, h, 0);
        lemma_index_at(s, i, end, h, 1);
        lemma_index_at(s, i, end, h, 2);
        lemma_index_at(s, i, end, h, 3);
        lemma_index_at(s, i, end, h, 4);
        assert(s[i] == (major * 32 + 26) as u8);
        assert(s[i] / 32 == major && s[i] % 32 == 26);
        let m = n as u32;
        assert(s[i + 1] == (m / 0x1000000) as u8);
        assert(s[i + 2] == ((m / 0x10000) % 256) as u8);
        assert(s[i + 3] == ((m / 256) % 256) as u8);
        assert(s[i + 4] == (m % 256) as u8);
        lemma_be32_digits(m);
        assert(be32_val(s, i + 1) == n);
    } else {
        assert(h[0] == (major * 32 + 27) as u8);
        let hi = (n / 0x100000000) as u32;
        let lo = (n % 0x100000000) as u32;
        assert(h =~= seq![(major * 32 + 27) as u8] + (be32(hi) + be32(lo)));
        lemma_index_at(s, i, end, h, 0);
        lemma_index_at(s, i, end, h, 1);
        lemma_index_at(s, i, end, h, 2);
        lemma_index_at(s, i, end, h, 3);
        lemma_index_at(s, i, end, h, 4);
        lemma_index_at(s, i, end, h, 5);
        lemma_index_at(s, i, end, h, 6);
        lemma_index_at(s, i, end, h, 7);
        lemma_index_at(s, i, end, h, 8);
        assert(s[i] / 32 == major && s[i] % 32 == 27);
        assert(s[i + 1] == (hi / 0x1000000) as u8);
        assert(s[i + 2] == ((hi / 0x10000) % 256) as u8);
        assert(s[i + 3] == ((hi / 256) % 256) as u8);
        assert(s[i + 4] == (hi % 256) as u8);
        assert(s[i + 5] == (lo / 0x1000000) as u8);
        assert(s[i + 6] == ((lo / 0x10000) % 256) as u8);
        assert(s[i + 7] == ((lo / 256) % 256) as u8);
        assert(s[i + 8] == (lo % 256) as u8);
        lemma_be32_digits(hi);
        lemma_be32_digits(lo);
        assert(be32_val(s, i + 1) == hi);
        assert(be32_val(s, i + 5) == lo);
        assert(be64_val(s, i + 1) == n);
    }
}

proof fn lemma_parse_text_at(s: Seq<u8>, i: int, cs: Seq<char>, max: int)
    requires
        0 <= i,
        is_ascii_chars(cs),
        cs.len() <= max,
        max <= 0xFFFF,
        i + text(cs).len() <= s.len(),
        s.subrange(i, i + text(cs).len()) == text(cs),
    ensures
        parse_text(s, i, max) == Some((cs, i + text(cs).len())),
{
    let h = hdr(3, cs.len() as u64);
    let bs = ascii_bytes(cs);
    lemma_peel(s, i, i + text(cs).len(), h, bs);
    lemma_parse_hdr_at(s, i, 3, cs.len() as u64);
    let j = i + h.len();
    assert forall|k: int| j <= k < j + cs.len() implies s[k] < 128 by {
        assert(s.subrange(j, j + bs.len())[k - j] == s[k]);
        assert(bs[k - j] == cs[k - j] as u8);
        assert('\0' <= cs[k - j] <= '\u{7f}');
    }
    assert forall|k: int| 0 <= k < cs.len() implies s.subrange(j, j + cs.len())[k] == cs[k] as u8 by {
        assert(s.subrange(j, j + bs.len())[k] == bs[k]);
    }
    assert(chars_of(s.subrange(j, j + cs.len())) =~= cs) by {
        assert forall|k: int| 0 <= k < cs.len() implies chars_of(s.subrange(j, j + cs.len()))[k]
            == cs[k] by {
            assert(s.subrange(j, j + cs.len())[k] == cs[k] as u8);
            assert('\0' <= cs[k] <= '\u{7f}');
        }
    }
}

proof fn lemma_expect_text_ne(s: Seq<u8>, i: int, a: Seq<char>, b: Seq<char>, w: int)
    requires
        0 <= i,
        i + text(a).len() <= s.len(),
        s.subrange(i, i + text(a).len()) == text(a),
        is_ascii_chars(a),
        is_ascii_chars(b),
        a.len() < 24,
        b.len() < 24,
        a.len() != b.len() || (0 <= w < a.len() && a[w] != b[w]),
    ensures
        expect(s, i, text(b)) is None,
{
    if expect(s, i, text(b)) is Some {
        assert(s.subrange(i, i + text(b).len()) == text(b));
        assert(s.subrange(i, i + text(a).len())[0] == s[i]);
        assert(s.subrange(i, i + text(b).len())[0] == s[i]);
        assert(text(a)[0] == (3 * 32 + a.len()) as u8);
        assert(text(b)[0] == (3 * 32 + b.len()) as u8);
        assert(a.len() == b.len());
        assert(s.subrange(i, i + text(a).len())[1 + w] == s[i + 1 + w]);
        assert(s.subrange(i, i + text(b).len())[1 + w] == s[i + 1 + w]);
        assert(text(a)[1 + w] == a[w] as u8);
        assert(text(b)[1 + w] == b[w] as u8);
        assert('\0' <= a[w] <= '\u{7f}');
        assert('\0' <= b[w] <= '\u{7f}');
        assert(false);
    }
}

proof fn lemma_parse_opt_addr_at(s: Seq<u8>, i: int, v: Option<u16>)
    requires
        0 <= i,
        i + opt_addr_bytes(v).len() <= s.len(),
        s.subrange(i, i + opt_addr_bytes(v).len()) == opt_addr_bytes(v),
    ensures
        parse_opt_addr(s, i) == Some((v, i + opt_addr_bytes(v).len())),
{
    match v {
        Option::None => {
            assert(s.subrange(i, i + 1)[0] == s[i]);
        },
        Option::Some(a) => {
            lemma_parse_hdr_at(s, i, 0, a as u64);
            assert(s.subrange(i, i + hdr(0, a as u64).len())[0] == s[i]);
            assert(s[i] == hdr(0, a as u64)[0]);
            assert(s[i] != 0xF6);
        },
    }
}

proof fn lemma_parse_f32_at(s: Seq<u8>, i: int, v: FloatBits32)
    requires
        0 <= i,
        i + f32_bytes(v).len() <= s.len(),
        s.subrange(i, i + f32_bytes(v).len()) == f32_bytes(v),
    ensures
        parse_f32(s, i) == Some((v, i + 5)),
{
    lemma_index_at(s, i, i + 5, f32_bytes(v), 0);
    lemma_index_at(s, i, i + 5, f32_bytes(v), 1);
    lemma_index_at(s, i, i + 5, f32_bytes(v), 2);
    lemma_index_at(s, i, i + 5, f32_bytes(v), 3);
    lemma_index_at(s, i, i + 5, f32_bytes(v), 4);
    assert(s[i] == 0xFA);
    assert(s[i + 1] == (v.bits / 0x1000000) as u8);
    assert(s[i + 2] == ((v.bits / 0x10000) % 256) as u8);
    assert(s[i + 3] == ((v.bits / 256) % 256) as u8);
    assert(s[i + 4] == (v.bits % 256) as u8);
    lemma_be32_digits(v.bits);
    assert(be32_val(s, i + 1) == v.bits);
}

proof fn lemma_parse_f64_at(s: Seq<u8>, i: int, v: FloatBits64)
    requires
        0 <= i,
        i + f64_bytes(v).len() <= s.len(),
        s.subrange(i, i + f64_bytes(v).len()) == f64_bytes(v),
    ensures
        parse_f64(s, i) == Some((v, i + 9)),
{
    let hi = (v.bits / 0x100000000) as u32;
    let lo = (v.bits % 0x100000000) as u32;
    assert(f64_bytes(v) =~= seq![0xFBu8] + (be32(hi) + be32(lo)));
    lemma_index_at(s, i, i + 9, f64_bytes(v), 0);
    lemma_index_at(s, i, i + 9, f64_bytes(v), 1);
    lemma_index_at(s, i, i + 9, f64_bytes(v), 2);
    lemma_index_at(s, i, i + 9, f64_bytes(v), 3);
    lemma_index_at(s, i, i + 9, f64_bytes(v), 4);
    lemma_index_at(s, i, i + 9, f64_bytes(v), 5);
    lemma_index_at(s, i, i + 9, f64_bytes(v), 6);
    lemma_index_at(s, i, i + 9, f64_bytes(v), 7);
    lemma_index_at(s, i, i + 9, f64_bytes(v), 8);
    assert(s[i] == 0xFB);
    assert(s[i + 1] == (hi / 0x1000000) as u8);
    assert(s[i + 2] == ((hi / 0x10000) % 256) as u8);
    assert(s[i + 3] == ((hi / 256) % 256) as u8);
    assert(s[i + 4] == (hi % 256) as u8);
    assert(s[i + 5] == (lo / 0x1000000) as u8);
    assert(s[i + 6] == ((lo / 0x10000) % 256) as u8);
    assert(s[i + 7] == ((lo / 256) % 256) as u8);
    assert(s[i + 8] == (lo % 256) as u8);
    lemma_be32_digits(hi);
    lemma_be32_digits(lo);
    assert(be32_val(s, i + 1) == hi);
    assert(be32_val(s, i + 5) == lo);
    assert(be64_val(s, i + 1) == v.bits);
}

proof fn lemma_parse_pos2_at(s: Seq<u8>, i: int, v: (FloatBits32, FloatBits32))
    requires
        0 <= i,
        i + pos2_bytes(v).len() <= s.len(),
        s.subrange(i, i + pos2_bytes(v).len()) == pos2_bytes(v),
    ensures
        parse_pos2(s, i) == Some((v, i + pos2_bytes(v).len())),
{
    let end = i + pos2_bytes(v).len();
    assert(pos2_bytes(v) =~= hdr(4, 2) + (f32_bytes(v.0) + f32_bytes(v.1)));
    lemma_peel(s, i, end, hdr(4, 2), f32_bytes(v.0) + f32_bytes(v.1));
    lemma_peel(s, i + 1, end, f32_bytes(v.0), f32_bytes(v.1));
    lemma_parse_f32_at(s, i + 1, v.0);
    lemma_parse_f32_at(s, i + 6, v.1);
}

proof fn lemma_parse_lin2_at(s: Seq<u8>, i: int, v: (FloatBits64, FloatBits64))
    requires
        0 <= i,
        i + lin2_bytes(v).len() <= s.len(),
        s.subrange(i, i + lin2_bytes(v).len()) == lin2_bytes(v),
    ensures
        parse_lin2(s, i) == Some((v, i + lin2_bytes(v).len())),
{
    let end = i + lin2_bytes(v).len();
    assert(lin2_bytes(v) =~= hdr(4, 2) + (f64_bytes(v.0) + f64_bytes(v.1)));
    lemma_peel(s, i, end, hdr(4, 2), f64_bytes(v.0) + f64_bytes(v.1));
    lemma_peel(s, i + 1, end, f64_bytes(v.0), f64_bytes(v.1));
    lemma_parse_f64_at(s, i + 1, v.0);
    lemma_parse_f64_at(s, i + 10, v.1);
}

proof fn lemma_parse_status_at(s: Seq<u8>, i: int, v: DiagnosticStatus)
    requires
        0 <= i,
        i + text(status_text(v)).len() <= s.len(),
        s.subrange(i, i + text(status_text(v)).len()) == text(status_text(v)),
    ensures
        parse_status(s, i) == Some((v, i + text(status_text(v)).len())),
{
    reveal_strlit("Ok");
    reveal_strlit("Warn");
    reveal_strlit("Error");
    reveal_strlit("Stale");
    let a = status_text(v);
    match v {
        DiagnosticStatus::Okay => {
        },
        DiagnosticStatus::Warn => {
            lemma_expect_text_ne(s, i, a, "Ok"@, 0);
        },
        DiagnosticStatus::Error => {
            lemma_expect_text_ne(s, i, a, "Ok"@, 0);
            lemma_expect_text_ne(s, i, a, "Warn"@, 0);
        },
        DiagnosticStatus::Stale => {
            lemma_expect_text_ne(s, i, a, "Ok"@, 0);
            lemma_expect_text_ne(s, i, a, "Warn"@, 0);
            lemma_expect_text_ne(s, i, a, "Error"@, 0);
        },
    }
}

proof fn lemma_parse_mode_at(s: Seq<u8>, i: int, v: MotionRequestMode)
    requires
        0 <= i,
        i + text(mode_text(v)).len() <= s.len(),
        s.subrange(i, i + text(mode_text(v)).len()) == text(mode_text(v)),
    ensures
        parse_mode(s, i) == Some((v, i + text(mode_text(v)).len())),
{
    reveal_strlit("Velocity");
    reveal_strlit("Position");
    reveal_strlit("Stop");
    let a = mode_text(v);
    match v {
        MotionRequestMode::Velocity => {
        },
        MotionRequestMode::Position => {
            lemma_expect_text_ne(s, i, a, "Velocity"@, 0);
        },
        MotionRequestMode::Stop => {
            lemma_expect_text_ne(s, i, a, "Velocity"@, 0);
            lemma_expect_text_ne(s, i, a, "Position"@, 0);
        },
    }
}

proof fn lemma_parse_clock_request_at(s: Seq<u8>, i: int, v: ClockRequest)
    requires
        0 <= i,
        i + clock_request_bytes(v).len() <= s.len(),
        s.subrange(i, i + clock_request_bytes(v).len()) == clock_request_bytes(v),
    ensures
        parse_clock_request(s, i) == Some((v, i + clock_request_bytes(v).len())),
{
    reveal_strlit("request_time");
    let end = i + clock_request_bytes(v).len();
    let c1 = hdr(5, 1);
    let c2 = text("request_time"@);
    let c3 = uint(v.request_time);
    assert(clock_request_bytes(v) =~= c1 + (c2 + c3));
    lemma_peel(s, i, end, c1, c2 + c3);
    let j0 = i + c1.len();
    lemma_peel(s, j0, end, c2, c3);
    let j1 = j0 + c2.len();
    lemma_parse_hdr_at(s, j1, 0, v.request_time);
}

proof fn lemma_parse_clock_response_at(s: Seq<u8>, i: int, v: ClockResponse)
    requires
        0 <= i,
        i + clock_response_bytes(v).len() <= s.len(),
        s.subrange(i, i + clock_response_bytes(v).len()) == clock_response_bytes(v),
    ensures
        parse_clock_response(s, i) == Some((v, i + clock_response_bytes(v).len())),
{
    reveal_strlit("request_time");
    reveal_strlit("received_time");
    let end = i + clock_response_bytes(v).len();
    let c1 = hdr(5, 2);
    let c2 = text("request_time"@);
    let c3 = uint(v.request_time);
    let c4 = text("received_time"@);
    let c5 = uint(v.received_time);
    assert(clock_response_bytes(v) =~= c1 + (c2 + (c3 + (c4 + c5))));
    lemma_peel(s, i, end, c1, c2 + (c3 + (c4 + c5)));
    let j0 = i + c1.len();
    lemma_peel(s, j0, end, c2, c3 + (c4 + c5));
    let j1 = j0 + c2.len();
    lemma_peel(s, j1, end, c3, c4 + c5);
    lemma_parse_hdr_at(s, j1, 0, v.request_time);
    let j2 = j1 + c3.len();
    lemma_peel(s, j2, end, c4, c5);
    let j3 = j2 + c4.len();
    lemma_parse_hdr_at(s, j3, 0, v.received_time);
}

proof fn lemma_parse_kv_at(s: Seq<u8>, i: int, v: KeyValueView)
    requires
        0 <= i,
        v.wf(),
        i + kv_bytes(v).len() <= s.len(),
        s.subrange(i, i + kv_bytes(v).len()) == kv_bytes(v),
    ensures
        parse_kv(s, i) == Some((v, i + kv_bytes(v).len())),
{
    reveal_strlit("key");
    reveal_strlit("value");
    let end = i + kv_bytes(v).len();
    let c1 = hdr(5, 2);
    let c2 = text("key"@);
    let c3 = text(v.key);
    let c4 = text("value"@);
    let c5 = text(v.value);
    assert(kv_bytes(v) =~= c1 + (c2 + (c3 + (c4 + c5))));
    lemma_peel(s, i, end, c1, c2 + (c3 + (c4 + c5)));
    let j0 = i + c1.len();
    lemma_peel(s, j0, end, c2, c3 + (c4 + c5));
    let j1 = j0 + c2.len();
    lemma_peel(s, j1, end, c3, c4 + c5);
    lemma_parse_text_at(s, j1, v.key, MAX_KEY_VALUE_LEN as int);
    let j2 = j1 + c3.len();
    lemma_peel(s, j2, end, c4, c5);
    let j3 = j2 + c4.len();
    lemma_parse_text_at(s, j3, v.value, MAX_KEY_VALUE_LEN as int);
}

proof fn lemma_parse_kv_list_at(s: Seq<u8>, i: int, kvs: Seq<KeyValueView>)
    requires
        0 <= i,
        forall|k: int| 0 <= k < kvs.len() ==> (#[trigger] kvs[k]).wf(),
        i + kv_list_bytes(kvs).len() <= s.len(),
        s.subrange(i, i + kv_list_bytes(kvs).len()) == kv_list_bytes(kvs),
    ensures
        parse_kv_list(s, i, kvs.len()) == Some((kvs, i + kv_list_bytes(kvs).len())),
    decreases kvs.len(),
{
    if kvs.len() == 0 {
        assert(kvs =~= Seq::<KeyValueView>::empty());
    } else {
        let end = i + kv_list_bytes(kvs).len();
        let head = kv_bytes(kvs[0]);
        let tail = kv_list_bytes(kvs.skip(1));
        lemma_peel(s, i, end, head, tail);
        lemma_parse_kv_at(s, i, kvs[0]);
        let j = i + head.len();
        assert(forall|k: int|
            0 <= k < kvs.skip(1).len() ==> (#[trigger] kvs.skip(1)[k]) == kvs[k + 1]);
        lemma_parse_kv_list_at(s, j, kvs.skip(1));
        assert(seq![kvs[0]] + kvs.skip(1) =~= kvs);
    }
}

proof fn lemma_parse_topics_list_at(s: Seq<u8>, i: int, ts: Seq<Seq<char>>)
    requires
        0 <= i,
        forall|k: int|
            0 <= k < ts.len() ==> bounded_ascii(#[trigger] ts[k], MAX_TOPIC_LEN as int),
        i + topics_list_bytes(ts).len() <= s.len(),
        s.subrange(i, i + topics_list_bytes(ts).len()) == topics_list_bytes(ts),
    ensures
        parse_topics_list(s, i, ts.len()) == Some((ts, i + topics_list_bytes(ts).len())),
    decreases ts.len(),
{
    if ts.len() == 0 {
        assert(ts =~= Seq::<Seq<char>>::empty());
    } else {
        let end = i + topics_list_bytes(ts).len();
        let head = text(ts[0]);
        let tail = topics_list_bytes(ts.skip(1));
        lemma_peel(s, i, end, head, tail);
        lemma_parse_text_at(s, i, ts[0], MAX_TOPIC_LEN as int);
        let j = i + head.len();
        assert(forall|k: int|
            0 <= k < ts.skip(1).len() ==> (#[trigger] ts.skip(1)[k]) == ts[k + 1]);
        lemma_parse_topics_list_at(s, j, ts.skip(1));
        assert(seq![ts[0]] + ts.skip(1) =~= ts);
    }
}

#[verifier::rlimit(60)]
proof fn lemma_parse_diagnostic_at(s: Seq<u8>, i: int, v: DiagnosticMsgView)
    requires
        0 <= i,
        v.wf(),
        i + diagnostic_bytes(v).len() <= s.len(),
        s.subrange(i, i + diagnostic_bytes(v).len()) == diagnostic_bytes(v),
    ensures
        parse_diagnostic(s, i) == Some((v, i + diagnostic_bytes(v).len())),
{
    reveal_strlit("level");
    reveal_strlit("name");
    reveal_strlit("message");
    reveal_strlit("values");
    let end = i + diagnostic_bytes(v).len();
    let c1 = hdr(5, 4);
    let c2 = text("level"@);
    let c3 = text(status_text(v.level));
    let c4 = text("name"@);
    let c5 = text(v.name);
    let c6 = text("message"@);
    let c7 = text(v.message);
    let c8 = text("values"@);
    let c9 = hdr(4, v.values.len() as u64);
    let c10 = kv_list_bytes(v.values);
    assert(diagnostic_bytes(v) =~= c1 + (c2 + (c3 + (c4 + (c5 + (c6 + (c7 + (c8 + (c9 + c10)))))))));
    lemma_peel(s, i, end, c1, c2 + (c3 + (c4 + (c5 + (c6 + (c7 + (c8 + (c9 + c10))))))));
    let j0 = i + c1.len();
    lemma_peel(s, j0, end, c2, c3 + (c4 + (c5 + (c6 + (c7 + (c8 + (c9 + c10)))))));
    let j1 = j0 + c2.len();
    lemma_peel(s, j1, end, c3, c4 + (c5 + (c6 + (c7 + (c8 + (c9 + c10))))));
    lemma_parse_status_at(s, j1, v.level);
    let j2 = j1 + c3.len();
    lemma_peel(s, j2, end, c4, c5 + (c6 + (c7 + (c8 + (c9 + c10)))));
    let j3 = j2 + c4.len();
    lemma_peel(s, j3, end, c5, c6 + (c7 + (c8 + (c9 + c10))));
    lemma_parse_text_at(s, j3, v.name, MAX_NAME_LEN as int);
    let j4 = j3 + c5.len();
    lemma_peel(s, j4, end, c6, c7 + (c8 + (c9 + c10)));
    let j5 = j4 + c6.len();
    lemma_peel(s, j5, end, c7, c8 + (c9 + c10));
    lemma_parse_text_at(s, j5, v.message, MAX_MESSAGE_LEN as int);
    let j6 = j5 + c7.len();
    lemma_peel(s, j6, end, c8, c9 + c10);
    let j7 = j6 + c8.len();
    lemma_peel(s, j7, end, c9, c10);
    lemma_parse_hdr_at(s, j7, 4, v.values.len() as u64);
    let j8 = j7 + c9.len();
    lemma_parse_kv_list_at(s, j8, v.values);
}

proof fn lemma_parse_odometry_at(s: Seq<u8>, i: int, v: OdometryDelta)
    requires
        0 <= i,
        i + odometry_bytes(v).len() <= s.len(),
        s.subrange(i, i + odometry_bytes(v).len()) == odometry_bytes(v),
    ensures
        parse_odometry(s, i) == Some((v, i + odometry_bytes(v).len())),
{
    reveal_strlit("start_time");
    reveal_strlit("end_time");
    reveal_strlit("delta_position");
    reveal_strlit("delta_orientation");
    let end = i + odometry_bytes(v).len();
    let c1 = hdr(5, 4);
    let c2 = text("start_time"@);
    let c3 = uint(v.start_time);
    let c4 = text("end_time"@);
    let c5 = uint(v.end_time);
    let c6 = text("delta_position"@);
    let c7 = pos2_bytes(v.delta_position);
    let c8 = text("delta_orientation"@);
    let c9 = f32_bytes(v.delta_orientation);
    assert(odometry_bytes(v) =~= c1 + (c2 + (c3 + (c4 + (c5 + (c6 + (c7 + (c8 + c9))))))));
    lemma_peel(s, i, end, c1, c2 + (c3 + (c4 + (c5 + (c6 + (c7 + (c8 + c9)))))));
    let j0 = i + c1.len();
    lemma_peel(s, j0, end, c2, c3 + (c4 + (c5 + (c6 + (c7 + (c8 + c9))))));
    let j1 = j0 + c2.len();
    lemma_peel(s, j1, end, c3, c4 + (c5 + (c6 + (c7 + (c8 + c9)))));
    lemma_parse_hdr_at(s, j1, 0, v.start_time);
    let j2 = j1 + c3.len();
    lemma_peel(s, j2, end, c4, c5 + (c6 + (c7 + (c8 + c9))));
    let j3 = j2 + c4.len();
    lemma_peel(s, j3, end, c5, c6 + (c7 + (c8 + c9)));
    lemma_parse_hdr_at(s, j3, 0, v.end_time);
    let j4 = j3 + c5.len();
    lemma_peel(s, j4, end, c6, c7 + (c8 + c9));
    let j5 = j4 + c6.len();
    lemma_peel(s, j5, end, c7, c8 + c9);
    lemma_parse_pos2_at(s, j5, v.delta_position);
    let j6 = j5 + c7.len();
    lemma_peel(s, j6, end, c8, c9);
    let j7 = j6 + c8.len();
    lemma_parse_f32_at(s, j7, v.delta_orientation);
}

proof fn lemma_parse_subscription_at(s: Seq<u8>, i: int, v: SubscriptionRequestView)
    requires
        0 <= i,
        v.wf(),
        i + subscription_bytes(v).len() <= s.len(),
        s.subrange(i, i + subscription_bytes(v).len()) == subscription_bytes(v),
    ensures
        parse_subscription(s, i) == Some((v, i + subscription_bytes(v).len())),
{
    reveal_strlit("topics");
    let end = i + subscription_bytes(v).len();
    let c1 = hdr(5, 1);
    let c2 = text("topics"@);
    let c3 = hdr(4, v.topics.len() as u64);
    let c4 = topics_list_bytes(v.topics);
    assert(subscription_bytes(v) =~= c1 + (c2 + (c3 + c4)));
    lemma_peel(s, i, end, c1, c2 + (c3 + c4));
    let j0 = i + c1.len();
    lemma_peel(s, j0, end, c2, c3 + c4);
    let j1 = j0 + c2.len();
    lemma_peel(s, j1, end, c3, c4);
    lemma_parse_hdr_at(s, j1, 4, v.topics.len() as u64);
    let j2 = j1 + c3.len();
    lemma_parse_topics_list_at(s, j2, v.topics);
}

proof fn lemma_parse_position_at(s: Seq<u8>, i: int, v: PositionEstimate)
    requires
        0 <= i,
        i + position_bytes(v).len() <= s.len(),
        s.subrange(i, i + position_bytes(v).len()) == position_bytes(v),
    ensures
        parse_position(s, i) == Some((v, i + position_bytes(v).len())),
{
    reveal_strlit("timestamp");
    reveal_strlit("position");
    reveal_strlit("orientation");
    let end = i + position_bytes(v).len();
    let c1 = hdr(5, 3);
    let c2 = text("timestamp"@);
    let c3 = uint(v.timestamp);
    let c4 = text("position"@);
    let c5 = pos2_bytes(v.position);
    let c6 = text("orientation"@);
    let c7 = f32_bytes(v.orientation);
    assert(position_bytes(v) =~= c1 + (c2 + (c3 + (c4 + (c5 + (c6 + c7))))));
    lemma_peel(s, i, end, c1, c2 + (c3 + (c4 + (c5 + (c6 + c7)))));
    let j0 = i + c1.len();
    lemma_peel(s, j0, end, c2, c3 + (c4 + (c5 + (c6 + c7))));
    let j1 = j0 + c2.len();
    lemma_peel(s, j1, end, c3, c4 + (c5 + (c6 + c7)));
    lemma_parse_hdr_at(s, j1, 0, v.timestamp);
    let j2 = j1 + c3.len();
    lemma_peel(s, j2, end, c4, c5 + (c6 + c7));
    let j3 = j2 + c4.len();
    lemma_peel(s, j3, end, c5, c6 + c7);
    lemma_parse_pos2_at(s, j3, v.position);
    let j4 = j3 + c5.len();
    lemma_peel(s, j4, end, c6, c7);
    let j5 = j4 + c6.len();
    lemma_parse_f32_at(s, j5, v.orientation);
}

proof fn lemma_parse_velocity_at(s: Seq<u8>, i: int, v: MotionVelocityRequest)
    requires
        0 <= i,
        i + velocity_bytes(v).len() <= s.len(),
        s.subrange(i, i + velocity_bytes(v).len()) == velocity_bytes(v),
    ensures
        parse_velocity(s, i) == Some((v, i + velocity_bytes(v).len())),
{
    reveal_strlit("linear_velocity");
    reveal_strlit("angular_velocity");
    let end = i + velocity_bytes(v).len();
    let c1 = hdr(5, 2);
    let c2 = text("linear_velocity"@);
    let c3 = f32_bytes(v.linear_velocity);
    let c4 = text("angular_velocity"@);
    let c5 = f32_bytes(v.angular_velocity);
    assert(velocity_bytes(v) =~= c1 + (c2 + (c3 + (c4 + c5))));
    lemma_peel(s, i, end, c1, c2 + (c3 + (c4 + c5)));
    let j0 = i + c1.len();
    lemma_peel(s, j0, end, c2, c3 + (c4 + c5));
    let j1 = j0 + c2.len();
    lemma_peel(s, j1, end, c3, c4 + c5);
    lemma_parse_f32_at(s, j1, v.linear_velocity);
    let j2 = j1 + c3.len();
    lemma_peel(s, j2, end, c4, c5);
    let j3 = j2 + c4.len();
    lemma_parse_f32_at(s, j3, v.angular_velocity);
}

proof fn lemma_parse_target_at(s: Seq<u8>, i: int, v: MotionTargetRequest)
    requires
        0 <= i,
        i + target_bytes(v).len() <= s.len(),
        s.subrange(i, i + target_bytes(v).len()) == target_bytes(v),
    ensures
        parse_target(s, i) == Some((v, i + target_bytes(v).len())),
{
    reveal_strlit("linear");
    reveal_strlit("angular");
    reveal_strlit("motion_mode");
    let end = i + target_bytes(v).len();
    let c1 = hdr(5, 3);
    let c2 = text("linear"@);
    let c3 = lin2_bytes(v.linear);
    let c4 = text("angular"@);
    let c5 = f64_bytes(v.angular);
    let c6 = text("motion_mode"@);
    let c7 = text(mode_text(v.motion_mode));
    assert(target_bytes(v) =~= c1 + (c2 + (c3 + (c4 + (c5 + (c6 + c7))))));
    lemma_peel(s, i, end, c1, c2 + (c3 + (c4 + (c5 + (c6 + c7)))));
    let j0 = i + c1.len();
    lemma_peel(s, j0, end, c2, c3 + (c4 + (c5 + (c6 + c7))));
    let j1 = j0 + c2.len();
    lemma_peel(s, j1, end, c3, c4 + (c5 + (c6 + c7)));
    lemma_parse_lin2_at(s, j1, v.linear);
    let j2 = j1 + c3.len();
    lemma_peel(s, j2, end, c4, c5 + (c6 + c7));
    let j3 = j2 + c4.len();
    lemma_peel(s, j3, end, c5, c6 + c7);
    lemma_parse_f64_at(s, j3, v.angular);
    let j4 = j3 + c5.len();
    lemma_peel(s, j4, end, c6, c7);
    let j5 = j4 + c6.len();
    lemma_parse_mode_at(s, j5, v.motion_mode);
}

#[verifier::rlimit(100)]
proof fn lemma_parse_data_at(s: Seq<u8>, i: int, d: PacketDataView)
    requires
        0 <= i,
        d.wf(),
        i + data_bytes(d).len() <= s.len(),
        s.subrange(i, i + data_bytes(d).len()) == data_bytes(d),
    ensures
        parse_data(s, i) == Some((d, i + data_bytes(d).len())),
{
    reveal_strlit("ClockRequest");
    reveal_strlit("ClockResponse");
    reveal_strlit("DiagnosticMsg");
    reveal_strlit("OdometryDelta");
    reveal_strlit("SubscriptionRequest");
    reveal_strlit("PositionEstimate");
    reveal_strlit("MotionVelocityRequest");
    reveal_strlit("MotionTargetRequest");
    let end = i + data_bytes(d).len();
    let c1 = hdr(5, 1);
    let j = i + c1.len();
    match d {
        PacketDataView::ClockRequest(v) => {
            let tag = text("ClockRequest"@);
            let body = clock_request_bytes(v);
            assert(data_bytes(d) =~= c1 + (tag + body));
            lemma_peel(s, i, end, c1, tag + body);
            lemma_peel(s, j, end, tag, body);
            lemma_parse_clock_request_at(s, j + tag.len(), v);
        },
        PacketDataView::ClockResponse(v) => {
            let tag = text("ClockResponse"@);
            let body = clock_response_bytes(v);
            assert(data_bytes(d) =~= c1 + (tag + body));
            lemma_peel(s, i, end, c1, tag + body);
            lemma_peel(s, j, end, tag, body);
            lemma_expect_text_ne(s, j, "ClockResponse"@, "ClockRequest"@, 0);
            lemma_parse_clock_response_at(s, j + tag.len(), v);
        },
        PacketDataView::DiagnosticMsg(v) => {
            let tag = text("DiagnosticMsg"@);
            let body = diagnostic_bytes(v);
            assert(data_bytes(d) =~= c1 + (tag + body));
            lemma_peel(s, i, end, c1, tag + body);
            lemma_peel(s, j, end, tag, body);
            lemma_expect_text_ne(s, j, "DiagnosticMsg"@, "ClockRequest"@, 0);
            lemma_expect_text_ne(s, j, "DiagnosticMsg"@, "ClockResponse"@, 0);
            lemma_parse_diagnostic_at(s, j + tag.len(), v);
        },
        PacketDataView::OdometryDelta(v) => {
            let tag = text("OdometryDelta"@);
            let body = odometry_bytes(v);
            assert(data_bytes(d) =~= c1 + (tag + body));
            lemma_peel(s, i, end, c1, tag + body);
            lemma_peel(s, j, end, tag, body);
            lemma_expect_text_ne(s, j, "OdometryDelta"@, "ClockRequest"@, 0);
            lemma_expect_text_ne(s, j, "OdometryDelta"@, "ClockResponse"@, 0);
            lemma_expect_text_ne(s, j, "OdometryDelta"@, "DiagnosticMsg"@, 0);
            lemma_parse_odometry_at(s, j + tag.len(), v);
        },
        PacketDataView::SubscriptionRequest(v) => {
            let tag = text("SubscriptionRequest"@);
            let body = subscription_bytes(v);
            assert(data_bytes(d) =~= c1 + (tag + body));
            lemma_peel(s, i, end, c1, tag + body);
            lemma_peel(s, j, end, tag, body);
            lemma_expect_text_ne(s, j, "SubscriptionRequest"@, "ClockRequest"@, 0);
            lemma_expect_text_ne(s, j, "SubscriptionRequest"@, "ClockResponse"@, 0);
            lemma_expect_text_ne(s, j, "SubscriptionRequest"@, "DiagnosticMsg"@, 0);
            lemma_expect_text_ne(s, j, "SubscriptionRequest"@, "OdometryDelta"@, 0);
            lemma_parse_subscription_at(s, j + tag.len(), v);
        },
        PacketDataView::PositionEstimate(v) => {
            let tag = text("PositionEstimate"@);
            let body = position_bytes(v);
            assert(data_bytes(d) =~= c1 + (tag + body));
            lemma_peel(s, i, end, c1, tag + body);
            lemma_peel(s, j, end, tag, body);
            lemma_expect_text_ne(s, j, "PositionEstimate"@, "ClockRequest"@, 0);
            lemma_expect_text_ne(s, j, "PositionEstimate"@, "ClockResponse"@, 0);
            lemma_expect_text_ne(s, j, "PositionEstimate"@, "DiagnosticMsg"@, 0);
            lemma_expect_text_ne(s, j, "PositionEstimate"@, "OdometryDelta"@, 0);
            lemma_expect_text_ne(s, j, "PositionEstimate"@, "SubscriptionRequest"@, 0);
            lemma_parse_position_at(s, j + tag.len(), v);
        },
        PacketDataView::MotionVelocityRequest(v) => {
            let tag = text("MotionVelocityRequest"@);
            let body = velocity_bytes(v);
            assert(data_bytes(d) =~= c1 + (tag + body));
            lemma_peel(s, i, end, c1, tag + body);
            lemma_peel(s, j, end, tag, body);
            lemma_expect_text_ne(s, j, "MotionVelocityRequest"@, "ClockRequest"@, 0);
            lemma_expect_text_ne(s, j, "MotionVelocityRequest"@, "ClockResponse"@, 0);
            lemma_expect_text_ne(s, j, "MotionVelocityRequest"@, "DiagnosticMsg"@, 0);
            lemma_expect_text_ne(s, j, "MotionVelocityRequest"@, "OdometryDelta"@, 0);
            lemma_expect_text_ne(s, j, "MotionVelocityRequest"@, "SubscriptionRequest"@, 0);
            lemma_expect_text_ne(s, j, "MotionVelocityRequest"@, "PositionEstimate"@, 0);
            lemma_parse_velocity_at(s, j + tag.len(), v);
        },
        PacketDataView::MotionTargetRequest(v) => {
            let tag = text("MotionTargetRequest"@);
            let body = target_bytes(v);
            assert(data_bytes(d) =~= c1 + (tag + body));
            lemma_peel(s, i, end, c1, tag + body);
            lemma_peel(s, j, end, tag, body);
            lemma_expect_text_ne(s, j, "MotionTargetRequest"@, "ClockRequest"@, 0);
            lemma_expect_text_ne(s, j, "MotionTargetRequest"@, "ClockResponse"@, 0);
            lemma_expect_text_ne(s, j, "MotionTargetRequest"@, "DiagnosticMsg"@, 0);
            lemma_expect_text_ne(s, j, "MotionTargetRequest"@, "OdometryDelta"@, 0);
            lemma_expect_text_ne(s, j, "MotionTargetRequest"@, "SubscriptionRequest"@, 0);
            lemma_expect_text_ne(s, j, "MotionTargetRequest"@, "PositionEstimate"@, 0);
            lemma_expect_text_ne(s, j, "MotionTargetRequest"@, "MotionVelocityRequest"@, 0);
            lemma_parse_target_at(s, j + tag.len(), v);
        },
    }
}

proof fn lemma_add_assoc(a: Seq<u8>, b: Seq<u8>, c: Seq<u8>)
    ensures
        (a + b) + c == a + (b + c),
{
    assert((a + b) + c =~= a + (b + c));
}

proof fn lemma_envelope_assoc(v: PacketFormatView)
    ensures
        envelope_bytes(v) == hdr(5, 5) + (text("to"@) + (opt_addr_bytes(v.to) + (text("from"@) + (
        opt_addr_bytes(v.from) + (text("data"@) + (data_bytes(v.data) + (text("time"@) + (uint(
            v.time,
        ) + (text("id"@) + uint(v.id as u64)))))))))),
{
    let c1 = hdr(5, 5);
    let c2 = text("to"@);
    let c3 = opt_addr_bytes(v.to);
    let c4 = text("from"@);
    let c5 = opt_addr_bytes(v.from);
    let c6 = text("data"@);
    let c7 = data_bytes(v.data);
    let c8 = text("time"@);
    let c9 = uint(v.time);
    let c10 = text("id"@);
    let c11 = uint(v.id as u64);
    let l2 = c1 + c2;
    let l3 = l2 + c3;
    let l4 = l3 + c4;
    let l5 = l4 + c5;
    let l6 = l5 + c6;
    let l7 = l6 + c7;
    let l8 = l7 + c8;
    let l9 = l8 + c9;
    let l10 = l9 + c10;
    assert(envelope_bytes(v) == l10 + c11);
    let r10 = c10 + c11;
    lemma_add_assoc(l9, c10, c11);
    let r9 = c9 + r10;
    lemma_add_assoc(l8, c9, r10);
    let r8 = c8 + r9;
    lemma_add_assoc(l7, c8, r9);
    let r7 = c7 + r8;
    lemma_add_assoc(l6, c7, r8);
    let r6 = c6 + r7;
    lemma_add_assoc(l5, c6, r7);
    let r5 = c5 + r6;
    lemma_add_assoc(l4, c5, r6);
    let r4 = c4 + r5;
    lemma_add_assoc(l3, c4, r5);
    let r3 = c3 + r4;
    lemma_add_assoc(l2, c3, r4);
    let r2 = c2 + r3;
    lemma_add_assoc(c1, c2, r3);
}

/// Law: the decoder accepts exactly what the encoder writes. Parsing the
/// canonical byte encoding of any well-formed envelope yields that very
/// envelope, field for field.
#[verifier::rlimit(100)]
pub proof fn lemma_envelope_round_trip(v: PacketFormatView)
    requires
        v.wf(),
    ensures
        parse_envelope(envelope_bytes(v)) == Some(v),
{
    reveal_strlit("to");
    reveal_strlit("from");
    reveal_strlit("data");
    reveal_strlit("time");
    reveal_strlit("id");
    let s = envelope_bytes(v);
    let end = s.len() as int;
    let c1 = hdr(5, 5);
    let c2 = text("to"@);
    let c3 = opt_addr_bytes(v.to);
    let c4 = text("from"@);
    let c5 = opt_addr_bytes(v.from);
    let c6 = text("data"@);
    let c7 = data_bytes(v.data);
    let c8 = text("time"@);
    let c9 = uint(v.time);
    let c10 = text("id"@);
    let c11 = uint(v.id as u64);
    assert(s.subrange(0, end) =~= s);
    lemma_envelope_assoc(v);
    lemma_peel(s, 0, end, c1, c2 + (c3 + (c4 + (c5 + (c6 + (c7 + (c8 + (c9 + (c10 + c11)))))))));
    let j0 = c1.len() as int;
    lemma_peel(s, j0, end, c2, c3 + (c4 + (c5 + (c6 + (c7 + (c8 + (c9 + (c10 + c11))))))));
    let j1 = j0 + c2.len();
    lemma_peel(s, j1, end, c3, c4 + (c5 + (c6 + (c7 + (c8 + (c9 + (c10 + c11)))))));
    lemma_parse_opt_addr_at(s, j1, v.to);
    let j2 = j1 + c3.len();
    lemma_peel(s, j2, end, c4, c5 + (c6 + (c7 + (c8 + (c9 + (c10 + c11))))));
    let j3 = j2 + c4.len();
    lemma_peel(s, j3, end, c5, c6 + (c7 + (c8 + (c9 + (c10 + c11)))));
    lemma_parse_opt_addr_at(s, j3, v.from);
    let j4 = j3 + c5.len();
    lemma_peel(s, j4, end, c6, c7 + (c8 + (c9 + (c10 + c11))));
    let j5 = j4 + c6.len();
    lemma_peel(s, j5, end, c7, c8 + (c9 + (c10 + c11)));
    lemma_parse_data_at(s, j5, v.data);
    let j6 = j5 + c7.len();
    lemma_peel(s, j6, end, c8, c9 + (c10 + c11));
    let j7 = j6 + c8.len();
    lemma_peel(s, j7, end, c9, c10 + c11);
    lemma_parse_hdr_at(s, j7, 0, v.time);
    let j8 = j7 + c9.len();
    lemma_peel(s, j8, end, c10, c11);
    let j9 = j8 + c10.len();
    lemma_parse_hdr_at(s, j9, 0, v.id as u64);
}

proof fn lemma_join(s: Seq<u8>, i: int, m: int, j: int, a: Seq<u8>, b: Seq<u8>)
    requires
        0 <= i <= m <= j <= s.len(),
        s.subrange(i, m) == a,
        s.subrange(m, j) == b,
    ensures
        s.subrange(i, j) == a + b,
        j - i == a.len() + b.len(),
{
    assert forall|k: int| 0 <= k < j - i implies s.subrange(i, j)[k] == (a + b)[k] by {
        assert(s.subrange(i, j)[k] == s[i + k]);
        if k < m - i {
            assert(s.subrange(i, m)[k] == s[i + k]);
        } else {
            assert(s.subrange(m, j)[k - (m - i)] == s[m + (k - (m - i))]);
            assert(m + (k - (m - i)) == i + k);
        }
    }
    assert(s.subrange(i, j) =~= a + b);
}

proof fn lemma_be32_digits_inv(a: u8, b: u8, c: u8, d: u8)
    ensures
        ({
            let n = (a * 0x1000000 + b * 0x10000 + c * 256 + d) as u32;
            &&& n / 0x1000000 == a
            &&& (n / 0x10000) % 256 == b
            &&& (n / 256) % 256 == c
            &&& n % 256 == d
        }),
{
    let n = (a * 0x1000000 + b * 0x10000 + c * 256 + d) as u32;
    assert({
        let m = ((a as u32) * 0x1000000 + (b as u32) * 0x10000 + (c as u32) * 256 + (d as u32));
        &&& m / 0x1000000 == a
        &&& (m / 0x10000) % 256 == b
        &&& (m / 256) % 256 == c
        &&& m % 256 == d
    }) by (bit_vector)
        requires
            a < 256 && b < 256 && c < 256 && d < 256,
    ;
}

proof fn lemma_parse_hdr_sound(s: Seq<u8>, i: int, major: u8, n: u64, j: int)
    requires
        parse_hdr(s, i, major) == Some((n, j)),
    ensures
        0 <= i <= j <= s.len(),
        j == i + hdr(major, n).len(),
        s.subrange(i, j) == hdr(major, n),
    decreases 0int,
{
    let b = s[i];
    let ai = b % 32;
    assert(b == major * 32 + ai);
    if ai < 24 {
        assert(hdr(major, n) =~= seq![b]);
        assert(s.subrange(i, i + 1) =~= seq![b]);
    } else if ai == 24 {
        assert(hdr(major, n) =~= seq![(major * 32 + 24) as u8, n as u8]);
        assert(s.subrange(i, i + 2) =~= seq![(major * 32 + 24) as u8, n as u8]);
    } else if ai == 25 {
        assert(n == s[i + 1] * 256 + s[i + 2]);
        assert(n as u16 / 256 == s[i + 1] && n as u16 % 256 == s[i + 2]);
        assert(hdr(major, n) =~= seq![(major * 32 + 25) as u8, s[i + 1], s[i + 2]]);
        assert(s.subrange(i, i + 3) =~= seq![(major * 32 + 25) as u8, s[i + 1], s[i + 2]]);
    } else if ai == 26 {
        let m = n as u32;
        lemma_be32_digits_inv(s[i + 1], s[i + 2], s[i + 3], s[i + 4]);
        assert(m / 0x1000000 == s[i + 1]);
        assert((m / 0x10000) % 256 == s[i + 2]);
        assert((m / 256) % 256 == s[i + 3]);
        assert(m % 256 == s[i + 4]);
        assert(hdr(major, n) =~= seq![(major * 32 + 26) as u8, s[i + 1], s[i + 2], s[i + 3], s[i
            + 4]]);
        assert(s.subrange(i, i + 5) =~= seq![(major * 32 + 26) as u8, s[i + 1], s[i + 2], s[i + 3], s[i
            + 4]]);
    } else {
        assert(ai == 27);
        let hi = be32_val(s, i + 1) as u32;
        let lo = be32_val(s, i + 5) as u32;
        assert(n == hi * 0x100000000 + lo);
        assert(n / 0x100000000 == hi && n % 0x100000000 == lo);
        lemma_be32_digits_inv(s[i + 1], s[i + 2], s[i + 3], s[i + 4]);
        lemma_be32_digits_inv(s[i + 5], s[i + 6], s[i + 7], s[i + 8]);
        assert(be32(hi) =~= seq![s[i + 1], s[i + 2], s[i + 3], s[i + 4]]);
        assert(be32(lo) =~= seq![s[i + 5], s[i + 6], s[i + 7], s[i + 8]]);
        assert(hdr(major, n) =~= seq![(major * 32 + 27) as u8] + (be32(hi) + be32(lo)));
        assert(s.subrange(i, i + 9) =~= seq![(major * 32 + 27) as u8] + (be32(hi) + be32(lo)));
    }
}

proof fn lemma_parse_text_sound(s: Seq<u8>, i: int, max: int, cs: Seq<char>, j: int)
    requires
        parse_text(s, i, max) == Some((cs, j)),
    ensures
        0 <= i <= j <= s.len(),
        is_ascii_chars(cs),
        cs.len() <= max,
        j == i + text(cs).len(),
        s.subrange(i, j) == text(cs),
{
    let (n, m) = parse_hdr(s, i, 3)->Some_0;
    lemma_parse_hdr_sound(s, i, 3, n, m);
    assert(cs == chars_of(s.subrange(m, j)));
    assert forall|k: int| 0 <= k < cs.len() implies '\0' <= #[trigger] cs[k] <= '\u{7f}' by {
        assert(cs[k] == s.subrange(m, j)[k] as char);
        assert(s.subrange(m, j)[k] == s[m + k]);
        assert(s[m + k] < 128);
    }
    assert(ascii_bytes(cs) =~= s.subrange(m, j)) by {
        assert forall|k: int| 0 <= k < cs.len() implies ascii_bytes(cs)[k] == s.subrange(m, j)[k] by {
            assert(cs[k] == s.subrange(m, j)[k] as char);
            assert(s.subrange(m, j)[k] == s[m + k]);
            assert(s[m + k] < 128);
        }
    }
    assert(n == cs.len());
    lemma_join(s, i, m, j, hdr(3, cs.len() as u64), ascii_bytes(cs));
}

proof fn lemma_parse_opt_addr_sound(s: Seq<u8>, i: int, v: Option<u16>, j: int)
    requires
        parse_opt_addr(s, i) == Some((v, j)),
    ensures
        0 <= i <= j <= s.len(),
        j == i + opt_addr_bytes(v).len(),
        s.subrange(i, j) == opt_addr_bytes(v),
{
    if 0 <= i < s.len() && s[i] == 0xF6 {
        assert(s.subrange(i, i + 1) =~= seq![0xF6u8]);
    } else {
        let (n, m) = parse_hdr(s, i, 0)->Some_0;
        lemma_parse_hdr_sound(s, i, 0, n, m);
        assert(v == Some(n as u16));
        assert((n as u16) as u64 == n);
    }
}

proof fn lemma_parse_f32_sound(s: Seq<u8>, i: int, v: FloatBits32, j: int)
    requires
        parse_f32(s, i) == Some((v, j)),
    ensures
        0 <= i <= j <= s.len(),
        j == i + f32_bytes(v).len(),
        s.subrange(i, j) == f32_bytes(v),
{
    lemma_be32_digits_inv(s[i + 1], s[i + 2], s[i + 3], s[i + 4]);
    assert(f32_bytes(v) =~= seq![0xFAu8, s[i + 1], s[i + 2], s[i + 3], s[i + 4]]);
    assert(s.subrange(i, i + 5) =~= seq![0xFAu8, s[i + 1], s[i + 2], s[i + 3], s[i + 4]]);
}

proof fn lemma_parse_f64_sound(s: Seq<u8>, i: int, v: FloatBits64, j: int)
    requires
        parse_f64(s, i) == Some((v, j)),
    ensures
        0 <= i <= j <= s.len(),
        j == i + f64_bytes(v).len(),
        s.subrange(i, j) == f64_bytes(v),
{
    let hi = be32_val(s, i + 1) as u32;
    let lo = be32_val(s, i + 5) as u32;
    assert(v.bits == hi * 0x100000000 + lo);
    assert(v.bits / 0x100000000 == hi && v.bits % 0x100000000 == lo);
    lemma_be32_digits_inv(s[i + 1], s[i + 2], s[i + 3], s[i + 4]);
    lemma_be32_digits_inv(s[i + 5], s[i + 6], s[i + 7], s[i + 8]);
    assert(be32(hi) =~= seq![s[i + 1], s[i + 2], s[i + 3], s[i + 4]]);
    assert(be32(lo) =~= seq![s[i + 5], s[i + 6], s[i + 7], s[i + 8]]);
    assert(f64_bytes(v) =~= seq![0xFBu8] + (be32(hi) + be32(lo)));
    assert(s.subrange(i, i + 9) =~= seq![0xFBu8] + (be32(hi) + be32(lo)));
}

proof fn lemma_parse_pos2_sound(s: Seq<u8>, i: int, v: (FloatBits32, FloatBits32), j: int)
    requires
        parse_pos2(s, i) == Some((v, j)),
    ensures
        0 <= i <= j <= s.len(),
        j == i + pos2_bytes(v).len(),
        s.subrange(i, j) == pos2_bytes(v),
{
    let m0 = expect(s, i, hdr(4, 2))->Some_0;
    let (x, m1) = parse_f32(s, m0)->Some_0;
    lemma_parse_f32_sound(s, m0, x, m1);
    let (y, m2) = parse_f32(s, m1)->Some_0;
    lemma_parse_f32_sound(s, m1, y, m2);
    lemma_join(s, i, m0, m1, hdr(4, 2), f32_bytes(x));
    lemma_join(s, i, m1, m2, hdr(4, 2) + f32_bytes(x), f32_bytes(y));
}

proof fn lemma_parse_lin2_sound(s: Seq<u8>, i: int, v: (FloatBits64, FloatBits64), j: int)
    requires
        parse_lin2(s, i) == Some((v, j)),
    ensures
        0 <= i <= j <= s.len(),
        j == i + lin2_bytes(v).len(),
        s.subrange(i, j) == lin2_bytes(v),
{
    let m0 = expect(s, i, hdr(4, 2))->Some_0;
    let (x, m1) = parse_f64(s, m0)->Some_0;
    lemma_parse_f64_sound(s, m0, x, m1);
    let (y, m2) = parse_f64(s, m1)->Some_0;
    lemma_parse_f64_sound(s, m1, y, m2);
    lemma_join(s, i, m0, m1, hdr(4, 2), f64_bytes(x));
    lemma_join(s, i, m1, m2, hdr(4, 2) + f64_bytes(x), f64_bytes(y));
}

proof fn lemma_parse_status_sound(s: Seq<u8>, i: int, v: DiagnosticStatus, j: int)
    requires
        parse_status(s, i) == Some((v, j)),
    ensures
        0 <= i <= j <= s.len(),
        j == i + text(status_text(v)).len(),
        s.subrange(i, j) == text(status_text(v)),
{
}

proof fn lemma_parse_mode_sound(s: Seq<u8>, i: int, v: MotionRequestMode, j: int)
    requires
        parse_mode(s, i) == Some((v, j)),
    ensures
        0 <= i <= j <= s.len(),
        j == i + text(mode_text(v)).len(),
        s.subrange(i, j) == text(mode_text(v)),
{
}

proof fn lemma_parse_clock_request_sound(s: Seq<u8>, i: int, v: ClockRequest, j: int)
    requires
        parse_clock_request(s, i) == Some((v, j)),
    ensures
        0 <= i <= j <= s.len(),
        j == i + clock_request_bytes(v).len(),
        s.subrange(i, j) == clock_request_bytes(v),
{
    let m0 = expect(s, i, hdr(5, 1))->Some_0;
    let m1 = expect(s, m0, text("request_time"@))->Some_0;
    let (rt, m2) = parse_hdr(s, m1, 0)->Some_0;
    lemma_parse_hdr_sound(s, m1, 0, rt, m2);
    lemma_join(s, i, m0, m1, hdr(5, 1), text("request_time"@));
    lemma_join(s, i, m1, m2, hdr(5, 1) + text("request_time"@), uint(rt));
}

proof fn lemma_parse_clock_response_sound(s: Seq<u8>, i: int, v: ClockResponse, j: int)
    requires
        parse_clock_response(s, i) == Some((v, j)),
    ensures
        0 <= i <= j <= s.len(),
        j == i + clock_response_bytes(v).len(),
        s.subrange(i, j) == clock_response_bytes(v),
{
    let m0 = expect(s, i, hdr(5, 2))->Some_0;
    let m1 = expect(s, m0, text("request_time"@))->Some_0;
    let (rt, m2) = parse_hdr(s, m1, 0)->Some_0;
    lemma_parse_hdr_sound(s, m1, 0, rt, m2);
    let m3 = expect(s, m2, text("received_time"@))->Some_0;
    let (rv, m4) = parse_hdr(s, m3, 0)->Some_0;
    lemma_parse_hdr_sound(s, m3, 0, rv, m4);
    lemma_join(s, i, m0, m1, hdr(5, 2), text("request_time"@));
    lemma_join(s, i, m1, m2, hdr(5, 2) + text("request_time"@), uint(rt));
    lemma_join(s, i, m2, m3, hdr(5, 2) + text("request_time"@) + uint(rt), text("received_time"@));
    lemma_join(
        s,
        i,
        m3,
        m4,
        hdr(5, 2) + text("request_time"@) + uint(rt) + text("received_time"@),
        uint(rv),
    );
}

proof fn lemma_parse_kv_sound(s: Seq<u8>, i: int, v: KeyValueView, j: int)
    requires
        parse_kv(s, i) == Some((v, j)),
    ensures
        0 <= i <= j <= s.len(),
        j == i + kv_bytes(v).len(),
        s.subrange(i, j) == kv_bytes(v),
        v.wf(),
{
    let m0 = expect(s, i, hdr(5, 2))->Some_0;
    let m1 = expect(s, m0, text("key"@))->Some_0;
    let (key, m2) = parse_text(s, m1, MAX_KEY_VALUE_LEN as int)->Some_0;
    lemma_parse_text_sound(s, m1, MAX_KEY_VALUE_LEN as int, key, m2);
    let m3 = expect(s, m2, text("value"@))->Some_0;
    let (value, m4) = parse_text(s, m3, MAX_KEY_VALUE_LEN as int)->Some_0;
    lemma_parse_text_sound(s, m3, MAX_KEY_VALUE_LEN as int, value, m4);
    lemma_join(s, i, m0, m1, hdr(5, 2), text("key"@));
    lemma_join(s, i, m1, m2, hdr(5, 2) + text("key"@), text(key));
    lemma_join(s, i, m2, m3, hdr(5, 2) + text("key"@) + text(key), text("value"@));
    lemma_join(
        s,
        i,
        m3,
        m4,
        hdr(5, 2) + text("key"@) + text(key) + text("value"@),
        text(value),
    );
}

proof fn lemma_parse_kv_list_sound(s: Seq<u8>, i: int, count: nat, kvs: Seq<KeyValueView>, j: int)
    requires
        0 <= i <= s.len(),
        parse_kv_list(s, i, count) == Some((kvs, j)),
    ensures
        i <= j <= s.len(),
        kvs.len() == count,
        j == i + kv_list_bytes(kvs).len(),
        s.subrange(i, j) == kv_list_bytes(kvs),
        forall|k: int| 0 <= k < kvs.len() ==> (#[trigger] kvs[k]).wf(),
    decreases count,
{
    if count == 0 {
        assert(kvs =~= Seq::<KeyValueView>::empty());
        assert(s.subrange(i, i) =~= kv_list_bytes(kvs));
    } else {
        let (kv, m) = parse_kv(s, i)->Some_0;
        lemma_parse_kv_sound(s, i, kv, m);
        let (rest, j2) = parse_kv_list(s, m, (count - 1) as nat)->Some_0;
        lemma_parse_kv_list_sound(s, m, (count - 1) as nat, rest, j2);
        assert(kvs == seq![kv] + rest);
        assert(kvs[0] == kv);
        assert(kvs.skip(1) =~= rest);
        lemma_join(s, i, m, j, kv_bytes(kv), kv_list_bytes(rest));
    }
}

proof fn lemma_parse_topics_list_sound(s: Seq<u8>, i: int, count: nat, ts: Seq<Seq<char>>, j: int)
    requires
        0 <= i <= s.len(),
        parse_topics_list(s, i, count) == Some((ts, j)),
    ensures
        i <= j <= s.len(),
        ts.len() == count,
        j == i + topics_list_bytes(ts).len(),
        s.subrange(i, j) == topics_list_bytes(ts),
        forall|k: int|
            0 <= k < ts.len() ==> bounded_ascii(#[trigger] ts[k], MAX_TOPIC_LEN as int),
    decreases count,
{
    if count == 0 {
        assert(ts =~= Seq::<Seq<char>>::empty());
        assert(s.subrange(i, i) =~= topics_list_bytes(ts));
    } else {
        let (t, m) = parse_text(s, i, MAX_TOPIC_LEN as int)->Some_0;
        lemma_parse_text_sound(s, i, MAX_TOPIC_LEN as int, t, m);
        let (rest, j2) = parse_topics_list(s, m, (count - 1) as nat)->Some_0;
        lemma_parse_topics_list_sound(s, m, (count - 1) as nat, rest, j2);
        assert(ts == seq![t] + rest);
        assert(ts[0] == t);
        assert(ts.skip(1) =~= rest);
        lemma_join(s, i, m, j, text(t), topics_list_bytes(rest));
    }
}

#[verifier::rlimit(100)]
proof fn lemma_parse_diagnostic_sound(s: Seq<u8>, i: int, v: DiagnosticMsgView, j: int)
    requires
        parse_diagnostic(s, i) == Some((v, j)),
    ensures
        0 <= i <= j <= s.len(),
        j == i + diagnostic_bytes(v).len(),
        s.subrange(i, j) == diagnostic_bytes(v),
        v.wf(),
{
    let m0 = expect(s, i, hdr(5, 4))->Some_0;
    let m1 = expect(s, m0, text("level"@))->Some_0;
    let (level, m2) = parse_status(s, m1)->Some_0;
    lemma_parse_status_sound(s, m1, level, m2);
    let m3 = expect(s, m2, text("name"@))->Some_0;
    let (name, m4) = parse_text(s, m3, MAX_NAME_LEN as int)->Some_0;
    lemma_parse_text_sound(s, m3, MAX_NAME_LEN as int, name, m4);
    let m5 = expect(s, m4, text("message"@))->Some_0;
    let (message, m6) = parse_text(s, m5, MAX_MESSAGE_LEN as int)->Some_0;
    lemma_parse_text_sound(s, m5, MAX_MESSAGE_LEN as int, message, m6);
    let m7 = expect(s, m6, text("values"@))->Some_0;
    let (n, m8) = parse_hdr(s, m7, 4)->Some_0;
    lemma_parse_hdr_sound(s, m7, 4, n, m8);
    let (values, m9) = parse_kv_list(s, m8, n as nat)->Some_0;
    lemma_parse_kv_list_sound(s, m8, n as nat, values, m9);
    let c1 = hdr(5, 4);
    let c2 = c1 + text("level"@);
    let c3 = c2 + text(status_text(level));
    let c4 = c3 + text("name"@);
    let c5 = c4 + text(name);
    let c6 = c5 + text("message"@);
    let c7 = c6 + text(message);
    let c8 = c7 + text("values"@);
    let c9 = c8 + hdr(4, values.len() as u64);
    lemma_join(s, i, m0, m1, c1, text("level"@));
    lemma_join(s, i, m1, m2, c2, text(status_text(level)));
    lemma_join(s, i, m2, m3, c3, text("name"@));
    lemma_join(s, i, m3, m4, c4, text(name));
    lemma_join(s, i, m4, m5, c5, text("message"@));
    lemma_join(s, i, m5, m6, c6, text(message));
    lemma_join(s, i, m6, m7, c7, text("values"@));
    lemma_join(s, i, m7, m8, c8, hdr(4, values.len() as u64));
    lemma_join(s, i, m8, m9, c9, kv_list_bytes(values));
}

proof fn lemma_parse_odometry_sound(s: Seq<u8>, i: int, v: OdometryDelta, j: int)
    requires
        parse_odometry(s, i) == Some((v, j)),
    ensures
        0 <= i <= j <= s.len(),
        j == i + odometry_bytes(v).len(),
        s.subrange(i, j) == odometry_bytes(v),
{
    let m0 = expect(s, i, hdr(5, 4))->Some_0;
    let m1 = expect(s, m0, text("start_time"@))->Some_0;
    let (st, m2) = parse_hdr(s, m1, 0)->Some_0;
    lemma_parse_hdr_sound(s, m1, 0, st, m2);
    let m3 = expect(s, m2, text("end_time"@))->Some_0;
    let (et, m4) = parse_hdr(s, m3, 0)->Some_0;
    lemma_parse_hdr_sound(s, m3, 0, et, m4);
    let m5 = expect(s, m4, text("delta_position"@))->Some_0;
    let (dp, m6) = parse_pos2(s, m5)->Some_0;
    lemma_parse_pos2_sound(s, m5, dp, m6);
    let m7 = expect(s, m6, text("delta_orientation"@))->Some_0;
    let (dor, m8) = parse_f32(s, m7)->Some_0;
    lemma_parse_f32_sound(s, m7, dor, m8);
    let c1 = hdr(5, 4);
    let c2 = c1 + text("start_time"@);
    let c3 = c2 + uint(st);
    let c4 = c3 + text("end_time"@);
    let c5 = c4 + uint(et);
    let c6 = c5 + text("delta_position"@);
    let c7 = c6 + pos2_bytes(dp);
    lemma_join(s, i, m0, m1, c1, text("start_time"@));
    lemma_join(s, i, m1, m2, c2, uint(st));
    lemma_join(s, i, m2, m3, c3, text("end_time"@));
    lemma_join(s, i, m3, m4, c4, uint(et));
    lemma_join(s, i, m4, m5, c5, text("delta_position"@));
    lemma_join(s, i, m5, m6, c6, pos2_bytes(dp));
    lemma_join(s, i, m6, m7, c7, text("delta_orientation"@));
    lemma_join(s, i, m7, m8, c7 + text("delta_orientation"@), f32_bytes(dor));
}

proof fn lemma_parse_subscription_sound(s: Seq<u8>, i: int, v: SubscriptionRequestView, j: int)
    requires
        parse_subscription(s, i) == Some((v, j)),
    ensures
        0 <= i <= j <= s.len(),
        j == i + subscription_bytes(v).len(),
        s.subrange(i, j) == subscription_bytes(v),
        v.wf(),
{
    let m0 = expect(s, i, hdr(5, 1))->Some_0;
    let m1 = expect(s, m0, text("topics"@))->Some_0;
    let (n, m2) = parse_hdr(s, m1, 4)->Some_0;
    lemma_parse_hdr_sound(s, m1, 4, n, m2);
    let (topics, m3) = parse_topics_list(s, m2, n as nat)->Some_0;
    lemma_parse_topics_list_sound(s, m2, n as nat, topics, m3);
    lemma_join(s, i, m0, m1, hdr(5, 1), text("topics"@));
    lemma_join(s, i, m1, m2, hdr(5, 1) + text("topics"@), hdr(4, topics.len() as u64));
    lemma_join(
        s,
        i,
        m2,
        m3,
        hdr(5, 1) + text("topics"@) + hdr(4, topics.len() as u64),
        topics_list_bytes(topics),
    );
}

proof fn lemma_parse_position_sound(s: Seq<u8>, i: int, v: PositionEstimate, j: int)
    requires
        parse_position(s, i) == Some((v, j)),
    ensures
        0 <= i <= j <= s.len(),
        j == i + position_bytes(v).len(),
        s.subrange(i, j) == position_bytes(v),
{
    let m0 = expect(s, i, hdr(5, 3))->Some_0;
    let m1 = expect(s, m0, text("timestamp"@))->Some_0;
    let (ts, m2) = parse_hdr(s, m1, 0)->Some_0;
    lemma_parse_hdr_sound(s, m1, 0, ts, m2);
    let m3 = expect(s, m2, text("position"@))->Some_0;
    let (pos, m4) = parse_pos2(s, m3)->Some_0;
    lemma_parse_pos2_sound(s, m3, pos, m4);
    let m5 = expect(s, m4, text("orientation"@))->Some_0;
    let (ori, m6) = parse_f32(s, m5)->Some_0;
    lemma_parse_f32_sound(s, m5, ori, m6);
    let c1 = hdr(5, 3);
    let c2 = c1 + text("timestamp"@);
    let c3 = c2 + uint(ts);
    let c4 = c3 + text("position"@);
    let c5 = c4 + pos2_bytes(pos);
    lemma_join(s, i, m0, m1, c1, text("timestamp"@));
    lemma_join(s, i, m1, m2, c2, uint(ts));
    lemma_join(s, i, m2, m3, c3, text("position"@));
    lemma_join(s, i, m3, m4, c4, pos2_bytes(pos));
    lemma_join(s, i, m4, m5, c5, text("orientation"@));
    lemma_join(s, i, m5, m6, c5 + text("orientation"@), f32_bytes(ori));
}

proof fn lemma_parse_velocity_sound(s: Seq<u8>, i: int, v: MotionVelocityRequest, j: int)
    requires
        parse_velocity(s, i) == Some((v, j)),
    ensures
        0 <= i <= j <= s.len(),
        j == i + velocity_bytes(v).len(),
        s.subrange(i, j) == velocity_bytes(v),
{
    let m0 = expect(s, i, hdr(5, 2))->Some_0;
    let m1 = expect(s, m0, text("linear_velocity"@))->Some_0;
    let (lv, m2) = parse_f32(s, m1)->Some_0;
    lemma_parse_f32_sound(s, m1, lv, m2);
    let m3 = expect(s, m2, text("angular_velocity"@))->Some_0;
    let (av, m4) = parse_f32(s, m3)->Some_0;
    lemma_parse_f32_sound(s, m3, av, m4);
    let c1 = hdr(5, 2);
    let c2 = c1 + text("linear_velocity"@);
    let c3 = c2 + f32_bytes(lv);
    lemma_join(s, i, m0, m1, c1, text("linear_velocity"@));
    lemma_join(s, i, m1, m2, c2, f32_bytes(lv));
    lemma_join(s, i, m2, m3, c3, text("angular_velocity"@));
    lemma_join(s, i, m3, m4, c3 + text("angular_velocity"@), f32_bytes(av));
}

proof fn lemma_parse_target_sound(s: Seq<u8>, i: int, v: MotionTargetRequest, j: int)
    requires
        parse_target(s, i) == Some((v, j)),
    ensures
        0 <= i <= j <= s.len(),
        j == i + target_bytes(v).len(),
        s.subrange(i, j) == target_bytes(v),
{
    let m0 = expect(s, i, hdr(5, 3))->Some_0;
    let m1 = expect(s, m0, text("linear"@))->Some_0;
    let (lin, m2) = parse_lin2(s, m1)->Some_0;
    lemma_parse_lin2_sound(s, m1, lin, m2);
    let m3 = expect(s, m2, text("angular"@))->Some_0;
    let (ang, m4) = parse_f64(s, m3)->Some_0;
    lemma_parse_f64_sound(s, m3, ang, m4);
    let m5 = expect(s, m4, text("motion_mode"@))->Some_0;
    let (mode, m6) = parse_mode(s, m5)->Some_0;
    lemma_parse_mode_sound(s, m5, mode, m6);
    let c1 = hdr(5, 3);
    let c2 = c1 + text("linear"@);
    let c3 = c2 + lin2_bytes(lin);
    let c4 = c3 + text("angular"@);
    let c5 = c4 + f64_bytes(ang);
    lemma_join(s, i, m0, m1, c1, text("linear"@));
    lemma_join(s, i, m1, m2, c2, lin2_bytes(lin));
    lemma_join(s, i, m2, m3, c3, text("angular"@));
    lemma_join(s, i, m3, m4, c4, f64_bytes(ang));
    lemma_join(s, i, m4, m5, c5, text("motion_mode"@));
    lemma_join(s, i, m5, m6, c5 + text("motion_mode"@), text(mode_text(mode)));
}

#[verifier::rlimit(100)]
proof fn lemma_parse_data_sound(s: Seq<u8>, i: int, d: PacketDataView, j: int)
    requires
        parse_data(s, i) == Some((d, j)),
    ensures
        0 <= i <= j <= s.len(),
        j == i + data_bytes(d).len(),
        s.subrange(i, j) == data_bytes(d),
        d.wf(),
{
    let m0 = expect(s, i, hdr(5, 1))->Some_0;
    match d {
        PacketDataView::ClockRequest(v) => {
            let m1 = expect(s, m0, text("ClockRequest"@))->Some_0;
            let (_, m2) = parse_clock_request(s, m1)->Some_0;
            lemma_parse_clock_request_sound(s, m1, v, m2);
            lemma_join(s, i, m0, m1, hdr(5, 1), text("ClockRequest"@));
            lemma_join(s, i, m1, m2, hdr(5, 1) + text("ClockRequest"@), clock_request_bytes(v));
            lemma_add_assoc(hdr(5, 1), text("ClockRequest"@), clock_request_bytes(v));
        },
        PacketDataView::ClockResponse(v) => {
            let m1 = expect(s, m0, text("ClockResponse"@))->Some_0;
            let (_, m2) = parse_clock_response(s, m1)->Some_0;
            lemma_parse_clock_response_sound(s, m1, v, m2);
            lemma_join(s, i, m0, m1, hdr(5, 1), text("ClockResponse"@));
            lemma_join(s, i, m1, m2, hdr(5, 1) + text("ClockResponse"@), clock_response_bytes(v));
            lemma_add_assoc(hdr(5, 1), text("ClockResponse"@), clock_response_bytes(v));
        },
        PacketDataView::DiagnosticMsg(v) => {
            let m1 = expect(s, m0, text("DiagnosticMsg"@))->Some_0;
            let (_, m2) = parse_diagnostic(s, m1)->Some_0;
            lemma_parse_diagnostic_sound(s, m1, v, m2);
            lemma_join(s, i, m0, m1, hdr(5, 1), text("DiagnosticMsg"@));
            lemma_join(s, i, m1, m2, hdr(5, 1) + text("DiagnosticMsg"@), diagnostic_bytes(v));
            lemma_add_assoc(hdr(5, 1), text("DiagnosticMsg"@), diagnostic_bytes(v));
        },
        PacketDataView::OdometryDelta(v) => {
            let m1 = expect(s, m0, text("OdometryDelta"@))->Some_0;
            let (_, m2) = parse_odometry(s, m1)->Some_0;
            lemma_parse_odometry_sound(s, m1, v, m2);
            lemma_join(s, i, m0, m1, hdr(5, 1), text("OdometryDelta"@));
            lemma_join(s, i, m1, m2, hdr(5, 1) + text("OdometryDelta"@), odometry_bytes(v));
            lemma_add_assoc(hdr(5, 1), text("OdometryDelta"@), odometry_bytes(v));
        },
        PacketDataView::SubscriptionRequest(v) => {
            let m1 = expect(s, m0, text("SubscriptionRequest"@))->Some_0;
            let (_, m2) = parse_subscription(s, m1)->Some_0;
            lemma_parse_subscription_sound(s, m1, v, m2);
            lemma_join(s, i, m0, m1, hdr(5, 1), text("SubscriptionRequest"@));
            lemma_join(
                s,
                i,
                m1,
                m2,
                hdr(5, 1) + text("SubscriptionRequest"@),
                subscription_bytes(v),
            );
            lemma_add_assoc(hdr(5, 1), text("SubscriptionRequest"@), subscription_bytes(v));
        },
        PacketDataView::PositionEstimate(v) => {
            let m1 = expect(s, m0, text("PositionEstimate"@))->Some_0;
            let (_, m2) = parse_position(s, m1)->Some_0;
            lemma_parse_position_sound(s, m1, v, m2);
            lemma_join(s, i, m0, m1, hdr(5, 1), text("PositionEstimate"@));
            lemma_join(s, i, m1, m2, hdr(5, 1) + text("PositionEstimate"@), position_bytes(v));
            lemma_add_assoc(hdr(5, 1), text("PositionEstimate"@), position_bytes(v));
        },
        PacketDataView::MotionVelocityRequest(v) => {
            let m1 = expect(s, m0, text("MotionVelocityRequest"@))->Some_0;
            let (_, m2) = parse_velocity(s, m1)->Some_0;
            lemma_parse_velocity_sound(s, m1, v, m2);
            lemma_join(s, i, m0, m1, hdr(5, 1), text("MotionVelocityRequest"@));
            lemma_join(s, i, m1, m2, hdr(5, 1) + text("MotionVelocityRequest"@), velocity_bytes(v));
            lemma_add_assoc(hdr(5, 1), text("MotionVelocityRequest"@), velocity_bytes(v));
        },
        PacketDataView::MotionTargetRequest(v) => {
            let m1 = expect(s, m0, text("MotionTargetRequest"@))->Some_0;
            let (_, m2) = parse_target(s, m1)->Some_0;
            lemma_parse_target_sound(s, m1, v, m2);
            lemma_join(s, i, m0, m1, hdr(5, 1), text("MotionTargetRequest"@));
            lemma_join(s, i, m1, m2, hdr(5, 1) + text("MotionTargetRequest"@), target_bytes(v));
            lemma_add_assoc(hdr(5, 1), text("MotionTargetRequest"@), target_bytes(v));
        },
    }
}

/// Law: the format is unambiguous. Any byte sequence the parser accepts
/// is exactly the canonical encoding of the envelope it returns, which is
/// well formed; so no two distinct envelopes share an accepted byte
/// sequence.
#[verifier::rlimit(100)]
pub proof fn lemma_envelope_unambiguous(s: Seq<u8>, v: PacketFormatView)
    requires
        parse_envelope(s) == Some(v),
    ensures
        s == envelope_bytes(v),
        v.wf(),
{
    let m0 = expect(s, 0, hdr(5, 5))->Some_0;
    let m1 = expect(s, m0, text("to"@))->Some_0;
    let (to, m2) = parse_opt_addr(s, m1)->Some_0;
    lemma_parse_opt_addr_sound(s, m1, to, m2);
    let m3 = expect(s, m2, text("from"@))->Some_0;
    let (from, m4) = parse_opt_addr(s, m3)->Some_0;
    lemma_parse_opt_addr_sound(s, m3, from, m4);
    let m5 = expect(s, m4, text("data"@))->Some_0;
    let (data, m6) = parse_data(s, m5)->Some_0;
    lemma_parse_data_sound(s, m5, data, m6);
    let m7 = expect(s, m6, text("time"@))->Some_0;
    let (time, m8) = parse_hdr(s, m7, 0)->Some_0;
    lemma_parse_hdr_sound(s, m7, 0, time, m8);
    let m9 = expect(s, m8, text("id"@))->Some_0;
    let (id, m10) = parse_hdr(s, m9, 0)->Some_0;
    lemma_parse_hdr_sound(s, m9, 0, id, m10);
    let c1 = hdr(5, 5);
    let c2 = c1 + text("to"@);
    let c3 = c2 + opt_addr_bytes(to);
    let c4 = c3 + text("from"@);
    let c5 = c4 + opt_addr_bytes(from);
    let c6 = c5 + text("data"@);
    let c7 = c6 + data_bytes(data);
    let c8 = c7 + text("time"@);
    let c9 = c8 + uint(time);
    lemma_join(s, 0, m0, m1, c1, text("to"@));
    lemma_join(s, 0, m1, m2, c2, opt_addr_bytes(to));
    lemma_join(s, 0, m2, m3, c3, text("from"@));
    lemma_join(s, 0, m3, m4, c4, opt_addr_bytes(from));
    lemma_join(s, 0, m4, m5, c5, text("data"@));
    lemma_join(s, 0, m5, m6, c6, data_bytes(data));
    lemma_join(s, 0, m6, m7, c7, text("time"@));
    lemma_join(s, 0, m7, m8, c8, uint(time));
    lemma_join(s, 0, m8, m9, c9, text("id"@));
    lemma_join(s, 0, m9, m10, c9 + text("id"@), uint(id));
    assert((v.id as u64) == id);
    assert(s.subrange(0, s.len() as int) =~= s);
}

fn push_be16(out: &mut Vec<u8>, n: u16)
    ensures
        final(out)@ == old(out)@ + be16(n),
{
    out.push((n / 256) as u8);
    out.push((n % 256) as u8);
    assert(out@ =~= old(out)@ + be16(n));
}

fn push_be32(out: &mut Vec<u8>, n: u32)
    ensures
        final(out)@ == old(out)@ + be32(n),
{
    out.push((n / 0x1000000) as u8);
    out.push(((n / 0x10000) % 256) as u8);
    out.push(((n / 256) % 256) as u8);
    out.push((n % 256) as u8);
    assert(out@ =~= old(out)@ + be32(n));
}

fn push_be64(out: &mut Vec<u8>, n: u64)
    ensures
        final(out)@ == old(out)@ + be64(n),
{
    push_be32(out, (n / 0x100000000) as u32);
    push_be32(out, (n % 0x100000000) as u32);
    assert(out@ =~= old(out)@ + be64(n));
}

fn push_hdr(out: &mut Vec<u8>, major: u8, n: u64)
    requires
        major < 8,
    ensures
        final(out)@ == old(out)@ + hdr(major, n),
{
    if n < 24 {
        out.push(major * 32 + (n as u8));
        assert(out@ =~= old(out)@ + hdr(major, n));
    } else if n < 256 {
        out.push(major * 32 + 24);
        out.push(n as u8);
        assert(out@ =~= old(out)@ + hdr(major, n));
    } else if n < 65536 {
        out.push(major * 32 + 25);
        push_be16(out, n as u16);
        assert(out@ =~= old(out)@ + hdr(major, n));
    } else if n < 0x100000000 {
        out.push(major * 32 + 26);
        push_be32(out, n as u32);
        assert(out@ =~= old(out)@ + hdr(major, n));
    } else {
        out.push(major * 32 + 27);
        push_be64(out, n);
        assert(out@ =~= old(out)@ + hdr(major, n));
    }
}

fn push_ascii_str(out: &mut Vec<u8>, s: &str)
    requires
        is_ascii_chars(s@),
    ensures
        final(out)@ == old(out)@ + text(s@),
{
    proof {
        vstd::string::is_ascii_spec_bytes(s);
    }
    let bytes = s.as_bytes();
    assert(bytes@ =~= ascii_bytes(s@));
    push_hdr(out, 3, bytes.len() as u64);
    let ghost mid = out@;
    let mut i: usize = 0;
    while i < bytes.len()
        invariant
            i <= bytes@.len(),
            out@ == mid + bytes@.take(i as int),
        decreases bytes@.len() - i,
    {
        out.push(bytes[i]);
        proof {
            assert(bytes@.take(i + 1) =~= bytes@.take(i as int).push(bytes@[i as int]));
            assert(out@ =~= mid + bytes@.take(i + 1));
        }
        i = i + 1;
    }
    proof {
        assert(bytes@.take(bytes@.len() as int) =~= bytes@);
        assert(out@ =~= old(out)@ + text(s@));
    }
}

fn push_opt_addr(out: &mut Vec<u8>, v: Option<u16>)
    ensures
        final(out)@ == old(out)@ + opt_addr_bytes(v),
{
    match v {
        Option::None => {
            out.push(0xF6);
            assert(out@ =~= old(out)@ + opt_addr_bytes(v));
        },
        Option::Some(a) => {
            push_hdr(out, 0, a as u64);
        },
    }
}

fn push_f32(out: &mut Vec<u8>, v: FloatBits32)
    ensures
        final(out)@ == old(out)@ + f32_bytes(v),
{
    out.push(0xFA);
    push_be32(out, v.bits);
    assert(out@ =~= old(out)@ + f32_bytes(v));
}

fn push_f64(out: &mut Vec<u8>, v: FloatBits64)
    ensures
        final(out)@ == old(out)@ + f64_bytes(v),
{
    out.push(0xFB);
    push_be64(out, v.bits);
    assert(out@ =~= old(out)@ + f64_bytes(v));
}

fn push_clock_request(out: &mut Vec<u8>, v: &ClockRequest)
    ensures
        final(out)@ == old(out)@ + clock_request_bytes(*v),
{
    push_hdr(out, 5, 1);
    proof {
        reveal_strlit("request_time");
    }
    push_ascii_str(out, "request_time");
    push_hdr(out, 0, v.request_time);
    assert(out@ =~= old(out)@ + clock_request_bytes(*v));
}

fn push_clock_response(out: &mut Vec<u8>, v: &ClockResponse)
    ensures
        final(out)@ == old(out)@ + clock_response_bytes(*v),
{
    push_hdr(out, 5, 2);
    proof {
        reveal_strlit("request_time");
        reveal_strlit("received_time");
    }
    push_ascii_str(out, "request_time");
    push_hdr(out, 0, v.request_time);
    push_ascii_str(out, "received_time");
    push_hdr(out, 0, v.received_time);
    assert(out@ =~= old(out)@ + clock_response_bytes(*v));
}

fn push_status(out: &mut Vec<u8>, v: DiagnosticStatus)
    ensures
        final(out)@ == old(out)@ + text(status_text(v)),
{
    match v {
        DiagnosticStatus::Okay => {
            proof {
                reveal_strlit("Ok");
            }
            push_ascii_str(out, "Ok");
        },
        DiagnosticStatus::Warn => {
            proof {
                reveal_strlit("Warn");
            }
            push_ascii_str(out, "Warn");
        },
        DiagnosticStatus::Error => {
            proof {
                reveal_strlit("Error");
            }
            push_ascii_str(out, "Error");
        },
        DiagnosticStatus::Stale => {
            proof {
                reveal_strlit("Stale");
            }
            push_ascii_str(out, "Stale");
        },
    }
}

fn push_mode(out: &mut Vec<u8>, v: MotionRequestMode)
    ensures
        final(out)@ == old(out)@ + text(mode_text(v)),
{
    match v {
        MotionRequestMode::Velocity => {
            proof {
                reveal_strlit("Velocity");
            }
            push_ascii_str(out, "Velocity");
        },
        MotionRequestMode::Position => {
            proof {
                reveal_strlit("Position");
            }
            push_ascii_str(out, "Position");
        },
        MotionRequestMode::Stop => {
            proof {
                reveal_strlit("Stop");
            }
            push_ascii_str(out, "Stop");
        },
    }
}

fn push_kv(out: &mut Vec<u8>, v: &DiagnosticKeyValue)
    requires
        v@.wf(),
    ensures
        final(out)@ == old(out)@ + kv_bytes(v@),
{
    push_hdr(out, 5, 2);
    proof {
        reveal_strlit("key");
        reveal_strlit("value");
    }
    push_ascii_str(out, "key");
    push_ascii_str(out, v.key.as_str());
    push_ascii_str(out, "value");
    push_ascii_str(out, v.value.as_str());
    assert(out@ =~= old(out)@ + kv_bytes(v@));
}

proof fn lemma_kv_list_push(s: Seq<KeyValueView>, kv: KeyValueView)
    ensures
        kv_list_bytes(s.push(kv)) == kv_list_bytes(s) + kv_bytes(kv),
    decreases s.len(),
{
    if s.len() == 0 {
        assert(s.push(kv)[0] == kv);
        assert(s.push(kv).skip(1) =~= Seq::<KeyValueView>::empty());
        assert(kv_list_bytes(s.push(kv)) == kv_bytes(kv) + kv_list_bytes(
            Seq::<KeyValueView>::empty(),
        ));
        assert(kv_bytes(kv) + Seq::<u8>::empty() =~= Seq::<u8>::empty() + kv_bytes(kv));
    } else {
        assert(s.push(kv)[0] == s[0]);
        assert(s.push(kv).skip(1) =~= s.skip(1).push(kv));
        lemma_kv_list_push(s.skip(1), kv);
        assert(kv_list_bytes(s.push(kv)) == kv_bytes(s[0]) + kv_list_bytes(s.skip(1).push(kv)));
        assert(kv_bytes(s[0]) + (kv_list_bytes(s.skip(1)) + kv_bytes(kv)) =~= (kv_bytes(s[0])
            + kv_list_bytes(s.skip(1))) + kv_bytes(kv));
    }
}

proof fn lemma_topics_list_push(s: Seq<Seq<char>>, t: Seq<char>)
    ensures
        topics_list_bytes(s.push(t)) == topics_list_bytes(s) + text(t),
    decreases s.len(),
{
    if s.len() == 0 {
        assert(s.push(t)[0] == t);
        assert(s.push(t).skip(1) =~= Seq::<Seq<char>>::empty());
        assert(topics_list_bytes(s.push(t)) == text(t) + topics_list_bytes(
            Seq::<Seq<char>>::empty(),
        ));
        assert(text(t) + Seq::<u8>::empty() =~= Seq::<u8>::empty() + text(t));
    } else {
        assert(s.push(t)[0] == s[0]);
        assert(s.push(t).skip(1) =~= s.skip(1).push(t));
        lemma_topics_list_push(s.skip(1), t);
        assert(topics_list_bytes(s.push(t)) == text(s[0]) + topics_list_bytes(s.skip(1).push(t)));
        assert(text(s[0]) + (topics_list_bytes(s.skip(1)) + text(t)) =~= (text(s[0])
            + topics_list_bytes(s.skip(1))) + text(t));
    }
}

#[verifier::rlimit(60)]
fn push_diagnostic(out: &mut Vec<u8>, v: &DiagnosticMsg)
    requires
        v@.wf(),
    ensures
        final(out)@ == old(out)@ + diagnostic_bytes(v@),
{
    push_hdr(out, 5, 4);
    proof {
        reveal_strlit("level");
        reveal_strlit("name");
        reveal_strlit("message");
        reveal_strlit("values");
    }
    push_ascii_str(out, "level");
    push_status(out, v.level);
    push_ascii_str(out, "name");
    push_ascii_str(out, v.name.as_str());
    push_ascii_str(out, "message");
    push_ascii_str(out, v.message.as_str());
    push_ascii_str(out, "values");
    push_hdr(out, 4, v.values.len() as u64);
    let ghost base = out@;
    let ghost kvs = v@.values;
    let mut i: usize = 0;
    while i < v.values.len()
        invariant
            i <= v.values@.len(),
            kvs == v@.values,
            kvs.len() == v.values@.len(),
            forall|j: int| 0 <= j < kvs.len() ==> #[trigger] kvs[j] == v.values@[j]@ && kvs[j].wf(),
            out@ == base + kv_list_bytes(kvs.take(i as int)),
        decreases v.values@.len() - i,
    {
        proof {
            assert(kvs[i as int].wf());
            assert(kvs[i as int] == v.values@[i as int]@);
        }
        push_kv(out, &v.values[i]);
        proof {
            assert(kvs.take(i + 1) =~= kvs.take(i as int).push(kvs[i as int]));
            lemma_kv_list_push(kvs.take(i as int), kvs[i as int]);
        }
        i = i + 1;
    }
    proof {
        assert(kvs.take(kvs.len() as int) =~= kvs);
        assert(out@ =~= old(out)@ + diagnostic_bytes(v@));
    }
}

fn push_odometry(out: &mut Vec<u8>, v: &OdometryDelta)
    ensures
        final(out)@ == old(out)@ + odometry_bytes(*v),
{
    push_hdr(out, 5, 4);
    proof {
        reveal_strlit("start_time");
        reveal_strlit("end_time");
        reveal_strlit("delta_position");
        reveal_strlit("delta_orientation");
    }
    push_ascii_str(out, "start_time");
    push_hdr(out, 0, v.start_time);
    push_ascii_str(out, "end_time");
    push_hdr(out, 0, v.end_time);
    push_ascii_str(out, "delta_position");
    push_hdr(out, 4, 2);
    push_f32(out, v.delta_position.0);
    push_f32(out, v.delta_position.1);
    push_ascii_str(out, "delta_orientation");
    push_f32(out, v.delta_orientation);
    assert(out@ =~= old(out)@ + odometry_bytes(*v));
}

fn push_subscription(out: &mut Vec<u8>, v: &SubscriptionRequest)
    requires
        v@.wf(),
    ensures
        final(out)@ == old(out)@ + subscription_bytes(v@),
{
    push_hdr(out, 5, 1);
    proof {
        reveal_strlit("topics");
    }
    push_ascii_str(out, "topics");
    push_hdr(out, 4, v.topics.len() as u64);
    let ghost base = out@;
    let ghost ts = v@.topics;
    let mut i: usize = 0;
    while i < v.topics.len()
        invariant
            i <= v.topics@.len(),
            ts == v@.topics,
            ts.len() == v.topics@.len(),
            forall|j: int| 0 <= j < ts.len() ==> #[trigger] ts[j] == v.topics@[j]@ && is_ascii_chars(
                ts[j],
            ),
            out@ == base + topics_list_bytes(ts.take(i as int)),
        decreases v.topics@.len() - i,
    {
        proof {
            assert(is_ascii_chars(ts[i as int]));
            assert(ts[i as int] == v.topics@[i as int]@);
        }
        push_ascii_str(out, v.topics[i].as_str());
        proof {
            assert(ts.take(i + 1) =~= ts.take(i as int).push(ts[i as int]));
            lemma_topics_list_push(ts.take(i as int), ts[i as int]);
        }
        i = i + 1;
    }
    proof {
        assert(ts.take(ts.len() as int) =~= ts);
        assert(out@ =~= old(out)@ + subscription_bytes(v@));
    }
}

fn push_position(out: &mut Vec<u8>, v: &PositionEstimate)
    ensures
        final(out)@ == old(out)@ + position_bytes(*v),
{
    push_hdr(out, 5, 3);
    proof {
        reveal_strlit("timestamp");
        reveal_strlit("position");
        reveal_strlit("orientation");
    }
    push_ascii_str(out, "timestamp");
    push_hdr(out, 0, v.timestamp);
    push_ascii_str(out, "position");
    push_hdr(out, 4, 2);
    push_f32(out, v.position.0);
    push_f32(out, v.position.1);
    push_ascii_str(out, "orientation");
    push_f32(out, v.orientation);
    assert(out@ =~= old(out)@ + position_bytes(*v));
}

fn push_velocity(out: &mut Vec<u8>, v: &MotionVelocityRequest)
    ensures
        final(out)@ == old(out)@ + velocity_bytes(*v),
{
    push_hdr(out, 5, 2);
    proof {
        reveal_strlit("linear_velocity");
        reveal_strlit("angular_velocity");
    }
    push_ascii_str(out, "linear_velocity");
    push_f32(out, v.linear_velocity);
    push_ascii_str(out, "angular_velocity");
    push_f32(out, v.angular_velocity);
    assert(out@ =~= old(out)@ + velocity_bytes(*v));
}

fn push_target(out: &mut Vec<u8>, v: &MotionTargetRequest)
    ensures
        final(out)@ == old(out)@ + target_bytes(*v),
{
    push_hdr(out, 5, 3);
    proof {
        reveal_strlit("linear");
        reveal_strlit("angular");
        reveal_strlit("motion_mode");
    }
    push_ascii_str(out, "linear");
    push_hdr(out, 4, 2);
    push_f64(out, v.linear.0);
    push_f64(out, v.linear.1);
    push_ascii_str(out, "angular");
    push_f64(out, v.angular);
    push_ascii_str(out, "motion_mode");
    push_mode(out, v.motion_mode);
    assert(out@ =~= old(out)@ + target_bytes(*v));
}

#[verifier::rlimit(60)]
fn push_data(out: &mut Vec<u8>, d: &PacketData)
    requires
        d.wf(),
    ensures
        final(out)@ == old(out)@ + data_bytes(d@),
{
    push_hdr(out, 5, 1);
    match d {
        PacketData::ClockRequest(v) => {
            proof {
                reveal_strlit("ClockRequest");
            }
            push_ascii_str(out, "ClockRequest");
            push_clock_request(out, v);
        },
        PacketData::ClockResponse(v) => {
            proof {
                reveal_strlit("ClockResponse");
            }
            push_ascii_str(out, "ClockResponse");
            push_clock_response(out, v);
        },
        PacketData::DiagnosticMsg(v) => {
            proof {
                reveal_strlit("DiagnosticMsg");
            }
            push_ascii_str(out, "DiagnosticMsg");
            push_diagnostic(out, v);
        },
        PacketData::OdometryDelta(v) => {
            proof {
                reveal_strlit("OdometryDelta");
            }
            push_ascii_str(out, "OdometryDelta");
            push_odometry(out, v);
        },
        PacketData::SubscriptionRequest(v) => {
            proof {
                reveal_strlit("SubscriptionRequest");
            }
            push_ascii_str(out, "SubscriptionRequest");
            push_subscription(out, v);
        },
        PacketData::PositionEstimate(v) => {
            proof {
                reveal_strlit("PositionEstimate");
            }
            push_ascii_str(out, "PositionEstimate");
            push_position(out, v);
        },
        PacketData::MotionVelocityRequest(v) => {
            proof {
                reveal_strlit("MotionVelocityRequest");
            }
            push_ascii_str(out, "MotionVelocityRequest");
            push_velocity(out, v);
        },
        PacketData::MotionTargetRequest(v) => {
            proof {
                reveal_strlit("MotionTargetRequest");
            }
            push_ascii_str(out, "MotionTargetRequest");
            push_target(out, v);
        },
    }
    assert(out@ =~= old(out)@ + data_bytes(d@));
}

/// Encode a well-formed envelope to exactly [`envelope_bytes`].
pub fn encode_envelope(message: &PacketFormat) -> (r: Vec<u8>)
    requires
        message.wf(),
    ensures
        r@ == envelope_bytes(message@),
{
    let mut out: Vec<u8> = Vec::new();
    push_hdr(&mut out, 5, 5);
    proof {
        reveal_strlit("to");
        reveal_strlit("from");
        reveal_strlit("data");
        reveal_strlit("time");
        reveal_strlit("id");
    }
    push_ascii_str(&mut out, "to");
    push_opt_addr(&mut out, message.to);
    push_ascii_str(&mut out, "from");
    push_opt_addr(&mut out, message.from);
    push_ascii_str(&mut out, "data");
    push_data(&mut out, &message.data);
    push_ascii_str(&mut out, "time");
    push_hdr(&mut out, 0, message.time);
    push_ascii_str(&mut out, "id");
    push_hdr(&mut out, 0, message.id as u64);
    assert(out@ =~= envelope_bytes(message@));
    out
}

} // verus!
