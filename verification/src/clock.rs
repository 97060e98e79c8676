//! Clock synchronisation.
//!
//! The firmware keeps an exponentially smoothed round-trip-time and clock
//! offset from request/response round trips with the host
//! ([`Clock::handle_clock_response`]); the host answers every
//! [`ClockRequest`] with a [`ClockResponse`] stamped at receipt
//! ([`clock_response_for`]). Raw local time is always a parameter: reading
//! the hardware clock is the caller's business.

use vstd::prelude::*;

use crate::topics::ClockRequest;
use crate::topics::ClockResponse;
use crate::topics::PacketData;
use crate::topics::PacketFormat;

verus! {

use vstd::wrapping::u64_specs;

/// One step of an exponential filter keeping `keep` parts in `total` of
/// the old value: the plain weighted mean, or the sample itself when the
/// filter is empty.
pub open spec fn filtered(previous: Option<u64>, sample: u64, keep: u64, total: u64) -> u64
    recommends
        total == keep + 1,
{
    match previous {
        Option::None => sample,
        Option::Some(p) => ((p * keep + sample) / (total as int)) as u64,
    }
}

proof fn lemma_filtered_fits(p: u64, sample: u64, keep: u64)
    requires
        keep >= 1,
    ensures
        0 <= (p * keep + sample) / (keep + 1 as int) <= u64::MAX,
{
    let m = if p >= sample {
        p as int
    } else {
        sample as int
    };
    assert(p * keep + sample <= m * (keep + 1)) by (nonlinear_arith)
        requires
            keep >= 1,
            p <= m,
            sample <= m,
            m >= 0,
    ;
    assert((p * keep + sample) / (keep + 1 as int) <= m) by (nonlinear_arith)
        requires
            p * keep + sample <= m * (keep + 1),
            keep >= 1,
            m >= 0,
            p * keep + sample >= 0,
    ;
}

/// Firmware clock state: the smoothed offset added to raw local time to
/// approximate host time, and the smoothed round-trip time, both in
/// microseconds and both unset until the first response arrives.
pub struct Clock {
    pub offset: Option<u64>,
    pub average_round_trip_time: Option<u64>,
}

impl Clock {
    /// A clock with both filters uninitialised.
    pub fn new() -> (r: Clock)
        ensures
            r.offset is None,
            r.average_round_trip_time is None,
    {
        Clock { offset: None, average_round_trip_time: None }
    }

    /// Local time corrected toward host time: raw time plus the smoothed
    /// offset, wrapping, or raw time alone while unsynchronised.
    pub fn get_time(&self, now_raw: u64) -> (r: u64)
        ensures
            r == match self.offset {
                Option::Some(o) => u64_specs::wrapping_add(now_raw, o),
                Option::None => now_raw,
            },
    {
        match self.offset {
            Some(o) => now_raw.wrapping_add(o),
            None => now_raw,
        }
    }

    /// The payload of the next synchronisation request: the raw local
    /// send time.
    pub fn generate_request_data(&self, now_raw: u64) -> (r: PacketData)
        ensures
            r == PacketData::ClockRequest(ClockRequest { request_time: now_raw }),
    {
        PacketData::ClockRequest(ClockRequest { request_time: now_raw })
    }

    /// Fold one response into both filters: the round-trip sample is the
    /// wrapping difference between now and the echoed request time,
    /// smoothed 19:1; the offset sample is the host receive time plus
    /// half the smoothed round trip, smoothed 7:1. Returns the smoothed
    /// round-trip time.
    pub fn handle_clock_response(&mut self, now_raw: u64, response: &ClockResponse) -> (rtt: u64)
        ensures
            rtt == filtered(
                old(self).average_round_trip_time,
                u64_specs::wrapping_sub(now_raw, response.request_time),
                19,
                20,
            ),
            final(self).average_round_trip_time == Some(rtt),
            final(self).offset == Some(
                filtered(
                    old(self).offset,
                    u64_specs::wrapping_add(response.received_time, rtt / 2),
                    7,
                    8,
                ),
            ),
    {
        let this_round_trip_time = now_raw.wrapping_sub(response.request_time);
        let rtt = match self.average_round_trip_time {
            Some(avg) => {
                proof {
                    lemma_filtered_fits(avg, this_round_trip_time, 19);
                }
                let new_avg = (((avg as u128) * 19 + (this_round_trip_time as u128))
                    / 20) as u64;
                new_avg
            },
            None => this_round_trip_time,
        };
        self.average_round_trip_time = Some(rtt);
        let estimated_offset = response.received_time.wrapping_add(rtt / 2);
        let new_offset = match self.offset {
            Some(o) => {
                proof {
                    lemma_filtered_fits(o, estimated_offset, 7);
                }
                (((o as u128) * 7 + (estimated_offset as u128)) / 8) as u64
            },
            None => estimated_offset,
        };
        self.offset = Some(new_offset);
        rtt
    }
}

/// The distance between two clock readings.
pub open spec fn time_distance(a: u64, b: u64) -> int {
    if a >= b {
        a - b
    } else {
        b - a
    }
}

/// Law: each offset update is a contraction. One 7:1 smoothing step moves
/// the estimate at least seven eighths of the way no further from the
/// sample, so with a steady sample the filter converges toward it.
pub proof fn lemma_offset_filter_contracts(offset: u64, sample: u64)
    ensures
        time_distance(filtered(Some(offset), sample, 7, 8), sample) <= (7 * time_distance(
            offset,
            sample,
        ) + 7) / 8,
{
    let v = ((offset * 7 + sample) / 8) as u64;
    assert(0 <= (offset * 7 + sample) / 8 <= u64::MAX) by {
        lemma_filtered_fits(offset, sample, 7);
    }
    if offset >= sample {
        let d = offset - sample;
        assert(offset * 7 + sample == 8 * sample + 7 * d) by (nonlinear_arith)
            requires
                d == offset - sample,
        ;
        assert((8 * sample + 7 * d) / 8 == sample + (7 * d) / 8) by (nonlinear_arith);
        assert(v - sample == (7 * d) / 8);
        assert((7 * d) / 8 <= (7 * d + 7) / 8);
    } else {
        let d = sample - offset;
        assert(offset * 7 + sample == 8 * sample - 7 * d) by (nonlinear_arith)
            requires
                d == sample - offset,
        ;
        assert((8 * sample - 7 * d) / 8 >= sample - (7 * d + 7) / 8) by (nonlinear_arith)
            requires
                d >= 0,
                sample >= 0,
        ;
        assert(sample - v <= (7 * d + 7) / 8);
    }
}

/// Hands out envelope sequence numbers for one link, wrapping at the
/// numeric bound.
pub struct PacketSequencer {
    pub message_id: u32,
}

impl PacketSequencer {
    /// A sequencer starting at zero.
    pub fn new() -> (r: PacketSequencer)
        ensures
            r.message_id == 0,
    {
        PacketSequencer { message_id: 0 }
    }

    /// Build the next outbound envelope: the given payload and
    /// destination, the caller's clock reading, no source address, and
    /// this link's next sequence number.
    pub fn next_packet(&mut self, data: PacketData, to: Option<u16>, time: u64) -> (r:
        PacketFormat)
        ensures
            r == (PacketFormat { to, from: None, data, time, id: old(self).message_id }),
            final(self).message_id == vstd::wrapping::u32_specs::wrapping_add(
                old(self).message_id,
                1,
            ),
    {
        let packet = PacketFormat { to, from: None, data, time, id: self.message_id };
        self.message_id = self.message_id.wrapping_add(1);
        packet
    }
}

/// The host's reply to one inbound packet: a [`ClockResponse`] addressed
/// back to the requester, echoing its request time and stamped with the
/// receive time; anything that is not a clock request draws no reply.
pub fn clock_response_for(packet: &PacketFormat, now: u64) -> (r: Option<PacketFormat>)
    ensures
        match packet.data {
            PacketData::ClockRequest(req) => r == Some(
                PacketFormat {
                    to: packet.from,
                    from: None,
                    data: PacketData::ClockResponse(
                        ClockResponse { request_time: req.request_time, received_time: now },
                    ),
                    time: now,
                    id: packet.id,
                },
            ),
            _ => r is None,
        },
{
    match &packet.data {
        PacketData::ClockRequest(req) => Some(
            PacketFormat {
                to: packet.from,
                from: None,
                data: PacketData::ClockResponse(
                    ClockResponse { request_time: req.request_time, received_time: now },
                ),
                time: now,
                id: packet.id,
            },
        ),
        _ => None,
    }
}

} // verus!
