//! Messaging and control substrate for a small differential-drive robot:
//! a framed wire codec, an in-process publish/subscribe router, and the
//! arithmetic cores of the firmware's clock sync, encoder accounting and
//! motor control.

use vstd::prelude::*;

mod cbor;
mod clock;
mod codec;
mod decode;
mod devices;
mod diag;
mod encoders;
mod finder;
mod motor;
mod router;
mod topics;

pub use cbor::envelope_bytes;
pub use codec::PacketDecodeErr;
pub use codec::PacketEncodeErr;
pub use codec::cobs_encoding_of;
pub use codec::crc16_arc_of;
pub use codec::decode_packet;
pub use codec::encode_frame;
pub use codec::encode_packet;
pub use codec::encoded_packet_bytes;
pub use codec::le16;
pub use codec::payload_bytes;
pub use codec::payload_carries;
pub use cbor::lemma_envelope_round_trip;
pub use cbor::lemma_envelope_unambiguous;
pub use cbor::parse_envelope;
pub use decode::decode_envelope;
pub use cbor::encode_envelope;
pub use cbor::data_bytes;
pub use cbor::text;
pub use cbor::uint;
pub use cbor::hdr;

pub use router::Client;
pub use router::Router;
pub use router::RouterEntry;
pub use router::addr_index;
pub use router::all_topic;
pub use router::lemma_address_routing_dominates;
pub use router::lemma_liveness_sweep;
pub use router::lemma_router_fanout;
pub use router::only_entry_touched;
pub use router::swept_entry;
pub use router::deliveries;
pub use router::delivery_pred;
pub use router::inbox_extended;
pub use router::live_view;
pub use router::outgoing_stream;
pub use router::polled_entry;
pub use router::rc_seq_is;
pub use router::stamp;
pub use router::stamped_seq;
pub use router::subscribed;
pub use router::wants;

pub use clock::Clock;
pub use clock::PacketSequencer;
pub use clock::clock_response_for;
pub use clock::filtered;
pub use clock::lemma_offset_filter_contracts;
pub use clock::time_distance;
pub use devices::TARGET_VENDOR_ID;
pub use devices::contains_seq;
pub use devices::is_target_device;
pub use devices::str_contains;
pub use diag::AdapterStats;
pub use diag::SerialClientStats;
pub use diag::WebsocketClientStats;
pub use diag::dec_digits;
pub use diag::stats_values;
pub use diag::u32_to_decimal;
pub use encoders::Encoder;
pub use encoders::Encoders;
pub use encoders::check_encoder;
pub use encoders::dir_of;
pub use encoders::serviced_count;
pub use encoders::val_to_dir;
pub use motor::MotionState;
pub use motor::MotorDriver;
pub use motor::SPEED_DEADBAND;
pub use motor::SPEED_SCALE;
pub use motor::WATCHDOG_TIMEOUT_US;
pub use motor::clamp_speed;
pub use motor::mix_wheel_speeds;
pub use motor::mixed_speeds;
pub use motor::speed_abs;
pub use finder::FINDER_CAPACITY;
pub use finder::delimited;
pub use finder::frame_ok;
pub use finder::frames_ok;
pub use finder::lemma_finder_replay;
pub use finder::PacketFinder;
pub use finder::finder_run;
pub use finder::finder_state_wf;
pub use finder::finder_step;
pub use topics::ClockRequest;
pub use topics::ClockResponse;
pub use topics::DiagnosticMsgView;
pub use topics::KeyValueView;
pub use topics::PacketDataView;
pub use topics::PacketFormatView;
pub use topics::SubscriptionRequestView;
pub use topics::bounded_ascii;
pub use topics::MAX_DIAG_VALUES;
pub use topics::MAX_KEY_VALUE_LEN;
pub use topics::MAX_MESSAGE_LEN;
pub use topics::MAX_NAME_LEN;
pub use topics::MAX_SUBSCRIPTION_TOPICS;
pub use topics::MAX_TOPIC_LEN;
pub use topics::DiagnosticKeyValue;
pub use topics::DiagnosticMsg;
pub use topics::DiagnosticStatus;
pub use topics::FloatBits32;
pub use topics::FloatBits64;
pub use topics::MotionRequestMode;
pub use topics::MotionTargetRequest;
pub use topics::MotionVelocityRequest;
pub use topics::OdometryDelta;
pub use topics::PacketData;
pub use topics::PacketDataTrait;
pub use topics::PacketFormat;
pub use topics::PacketTrait;
pub use topics::PositionEstimate;
pub use topics::SubscriptionRequest;
