//! The message catalog: the envelope routed between nodes and the closed
//! set of payload variants, each mapped to a fixed topic string.
//!
//! Floating-point readings travel through the catalog opaquely: the wire
//! carries IEEE 754 bit patterns, and the catalog stores exactly those bits
//! (`FloatBits32`, `FloatBits64`) so that the codec and router never do
//! floating-point arithmetic themselves.

use vstd::prelude::*;

verus! {

use vstd::utf8::is_ascii_chars;

/// Upper bound, in characters, of a diagnostic source name.
pub const MAX_NAME_LEN: usize = 16;

/// Upper bound, in characters, of a diagnostic message text.
pub const MAX_MESSAGE_LEN: usize = 32;

/// Upper bound, in characters, of a diagnostic key or value string.
pub const MAX_KEY_VALUE_LEN: usize = 16;

/// Upper bound on the number of key/value entries of one diagnostic.
pub const MAX_DIAG_VALUES: usize = 8;

/// Upper bound, in characters, of a topic string.
pub const MAX_TOPIC_LEN: usize = 32;

/// Upper bound on the number of topics of one subscription request.
pub const MAX_SUBSCRIPTION_TOPICS: usize = 8;

/// A catalog string must be ASCII and at most `max` characters long.
pub open spec fn bounded_ascii(s: Seq<char>, max: int) -> bool {
    is_ascii_chars(s) && s.len() <= max
}

/// IEEE 754 single-precision value, held as its raw bit pattern.
#[derive(Clone, Copy, Debug, PartialEq, Eq, Structural)]
pub struct FloatBits32 {
    pub bits: u32,
}

/// IEEE 754 double-precision value, held as its raw bit pattern.
#[derive(Clone, Copy, Debug, PartialEq, Eq, Structural)]
pub struct FloatBits64 {
    pub bits: u64,
}

/// Clock synchronisation request carrying the sender's raw local time in
/// microseconds.
#[derive(Debug, PartialEq)]
pub struct ClockRequest {
    pub request_time: u64,
}

/// Reply to a [`ClockRequest`]: the original request time plus the
/// responder's clock at the moment of receipt, in microseconds.
#[derive(Debug, PartialEq)]
pub struct ClockResponse {
    pub request_time: u64,
    pub received_time: u64,
}

/// Severity of a [`DiagnosticMsg`]. `Okay` travels on the wire under the
/// tag `"Ok"`.
#[derive(Clone, Copy, Debug, PartialEq, Eq, Structural)]
pub enum DiagnosticStatus {
    Okay,
    Warn,
    Error,
    Stale,
}

/// One key/value entry of a [`DiagnosticMsg`].
#[derive(Debug, PartialEq)]
pub struct DiagnosticKeyValue {
    pub key: String,
    pub value: String,
}

/// Free-form diagnostic report published by adapters.
#[derive(Debug, PartialEq)]
pub struct DiagnosticMsg {
    pub level: DiagnosticStatus,
    pub name: String,
    pub message: String,
    pub values: Vec<DiagnosticKeyValue>,
}

/// Accumulated planar motion over one reporting interval of the odometry
/// integrator.
#[derive(Debug, PartialEq)]
pub struct OdometryDelta {
    pub start_time: u64,
    pub end_time: u64,
    pub delta_position: (FloatBits32, FloatBits32),
    pub delta_orientation: FloatBits32,
}

/// Wholesale replacement of a client's subscription set; handled by the
/// adapters themselves and never forwarded.
#[derive(Debug, PartialEq)]
pub struct SubscriptionRequest {
    pub topics: Vec<String>,
}

/// Dead-reckoned pose published by the host position estimator.
#[derive(Debug, PartialEq)]
pub struct PositionEstimate {
    pub timestamp: u64,
    pub position: (FloatBits32, FloatBits32),
    pub orientation: FloatBits32,
}

/// Immediate wheel velocity command for the firmware.
#[derive(Debug, PartialEq)]
pub struct MotionVelocityRequest {
    pub linear_velocity: FloatBits32,
    pub angular_velocity: FloatBits32,
}

/// How a [`MotionTargetRequest`] is to be interpreted.
#[derive(Clone, Copy, Debug, PartialEq, Eq, Structural)]
pub enum MotionRequestMode {
    Velocity,
    Position,
    Stop,
}

/// Latched motion goal for the host motion controller.
#[derive(Debug, PartialEq)]
pub struct MotionTargetRequest {
    pub linear: (FloatBits64, FloatBits64),
    pub angular: FloatBits64,
    pub motion_mode: MotionRequestMode,
}

/// The closed tagged union of payloads. The variant tag determines the
/// topic string used for subscription matching; extending the catalog must
/// not disturb the encoding of existing variants.
#[derive(Debug, PartialEq)]
#[non_exhaustive]
pub enum PacketData {
    ClockRequest(ClockRequest),
    ClockResponse(ClockResponse),
    DiagnosticMsg(DiagnosticMsg),
    OdometryDelta(OdometryDelta),
    SubscriptionRequest(SubscriptionRequest),
    PositionEstimate(PositionEstimate),
    MotionVelocityRequest(MotionVelocityRequest),
    MotionTargetRequest(MotionTargetRequest),
}

/// The routed record: destination and source addresses, payload, send time
/// in microseconds, and a sequence number.
#[derive(Debug, PartialEq)]
pub struct PacketFormat {
    pub to: Option<u16>,
    pub from: Option<u16>,
    pub data: PacketData,
    pub time: u64,
    pub id: u32,
}

/// Mathematical model of a [`DiagnosticKeyValue`].
pub struct KeyValueView {
    pub key: Seq<char>,
    pub value: Seq<char>,
}

/// Mathematical model of a [`DiagnosticMsg`].
pub struct DiagnosticMsgView {
    pub level: DiagnosticStatus,
    pub name: Seq<char>,
    pub message: Seq<char>,
    pub values: Seq<KeyValueView>,
}

/// Mathematical model of a [`SubscriptionRequest`].
pub struct SubscriptionRequestView {
    pub topics: Seq<Seq<char>>,
}

/// Mathematical model of a [`PacketData`].
pub enum PacketDataView {
    ClockRequest(ClockRequest),
    ClockResponse(ClockResponse),
    DiagnosticMsg(DiagnosticMsgView),
    OdometryDelta(OdometryDelta),
    SubscriptionRequest(SubscriptionRequestView),
    PositionEstimate(PositionEstimate),
    MotionVelocityRequest(MotionVelocityRequest),
    MotionTargetRequest(MotionTargetRequest),
}

/// Mathematical model of a [`PacketFormat`].
pub struct PacketFormatView {
    pub to: Option<u16>,
    pub from: Option<u16>,
    pub data: PacketDataView,
    pub time: u64,
    pub id: u32,
}

impl View for DiagnosticKeyValue {
    type V = KeyValueView;

    open spec fn view(&self) -> KeyValueView {
        KeyValueView { key: self.key@, value: self.value@ }
    }
}

impl View for DiagnosticMsg {
    type V = DiagnosticMsgView;

    open spec fn view(&self) -> DiagnosticMsgView {
        DiagnosticMsgView {
            level: self.level,
            name: self.name@,
            message: self.message@,
            values: self.values@.map_values(|kv: DiagnosticKeyValue| kv@),
        }
    }
}

impl View for SubscriptionRequest {
    type V = SubscriptionRequestView;

    open spec fn view(&self) -> SubscriptionRequestView {
        SubscriptionRequestView { topics: self.topics@.map_values(|t: String| t@) }
    }
}

impl View for PacketData {
    type V = PacketDataView;

    open spec fn view(&self) -> PacketDataView {
        match self {
            PacketData::ClockRequest(v) => PacketDataView::ClockRequest(*v),
            PacketData::ClockResponse(v) => PacketDataView::ClockResponse(*v),
            PacketData::DiagnosticMsg(v) => PacketDataView::DiagnosticMsg(v@),
            PacketData::OdometryDelta(v) => PacketDataView::OdometryDelta(*v),
            PacketData::SubscriptionRequest(v) => PacketDataView::SubscriptionRequest(v@),
            PacketData::PositionEstimate(v) => PacketDataView::PositionEstimate(*v),
            PacketData::MotionVelocityRequest(v) => PacketDataView::MotionVelocityRequest(*v),
            PacketData::MotionTargetRequest(v) => PacketDataView::MotionTargetRequest(*v),
        }
    }
}

impl View for PacketFormat {
    type V = PacketFormatView;

    open spec fn view(&self) -> PacketFormatView {
        PacketFormatView {
            to: self.to,
            from: self.from,
            data: self.data@,
            time: self.time,
            id: self.id,
        }
    }
}

impl KeyValueView {
    /// Both strings within the embedded bounds.
    pub open spec fn wf(&self) -> bool {
        bounded_ascii(self.key, MAX_KEY_VALUE_LEN as int) && bounded_ascii(
            self.value,
            MAX_KEY_VALUE_LEN as int,
        )
    }
}

impl DiagnosticMsgView {
    /// All strings and the value list within the embedded bounds.
    pub open spec fn wf(&self) -> bool {
        &&& bounded_ascii(self.name, MAX_NAME_LEN as int)
        &&& bounded_ascii(self.message, MAX_MESSAGE_LEN as int)
        &&& self.values.len() <= MAX_DIAG_VALUES
        &&& forall|i: int| 0 <= i < self.values.len() ==> (#[trigger] self.values[i]).wf()
    }
}

impl SubscriptionRequestView {
    /// Topic list and every topic string within the embedded bounds.
    pub open spec fn wf(&self) -> bool {
        &&& self.topics.len() <= MAX_SUBSCRIPTION_TOPICS
        &&& forall|i: int|
            0 <= i < self.topics.len() ==> bounded_ascii(
                #[trigger] self.topics[i],
                MAX_TOPIC_LEN as int,
            )
    }
}

impl PacketDataView {
    /// The payload respects the embedded string bounds; variants without
    /// strings are always well formed.
    pub open spec fn wf(&self) -> bool {
        match self {
            PacketDataView::DiagnosticMsg(m) => m.wf(),
            PacketDataView::SubscriptionRequest(s) => s.wf(),
            _ => true,
        }
    }
}

impl PacketFormatView {
    /// The envelope is well formed when its payload is.
    pub open spec fn wf(&self) -> bool {
        self.data.wf()
    }
}

impl DiagnosticKeyValue {
    /// Both strings within the embedded bounds.
    pub open spec fn wf(&self) -> bool {
        self@.wf()
    }
}

impl DiagnosticMsg {
    /// All strings and the value list within the embedded bounds.
    pub open spec fn wf(&self) -> bool {
        self@.wf()
    }
}

impl SubscriptionRequest {
    /// Topic list and every topic string within the embedded bounds.
    pub open spec fn wf(&self) -> bool {
        self@.wf()
    }
}

impl PacketData {
    /// The payload respects the embedded string bounds; variants without
    /// strings are always well formed.
    pub open spec fn wf(&self) -> bool {
        self@.wf()
    }

    /// The topic string of this payload variant.
    pub open spec fn topic_spec(&self) -> Seq<char> {
        match self {
            PacketData::ClockRequest(_) => "ClockRequest"@,
            PacketData::ClockResponse(_) => "ClockResponse"@,
            PacketData::DiagnosticMsg(_) => "DiagnosticMsg"@,
            PacketData::OdometryDelta(_) => "OdometryDelta"@,
            PacketData::SubscriptionRequest(_) => "SubscriptionRequest"@,
            PacketData::PositionEstimate(_) => "PositionEstimate"@,
            PacketData::MotionVelocityRequest(_) => "MotionVelocityRequest"@,
            PacketData::MotionTargetRequest(_) => "MotionTargetRequest"@,
        }
    }

    /// The topic under which a packet holding this payload is routed.
    pub fn topic(&self) -> (r: &'static str)
        ensures
            r@ == self.topic_spec(),
    {
        match self {
            PacketData::ClockRequest(_) => "ClockRequest",
            PacketData::ClockResponse(_) => "ClockResponse",
            PacketData::DiagnosticMsg(_) => "DiagnosticMsg",
            PacketData::OdometryDelta(_) => "OdometryDelta",
            PacketData::SubscriptionRequest(_) => "SubscriptionRequest",
            PacketData::PositionEstimate(_) => "PositionEstimate",
            PacketData::MotionVelocityRequest(_) => "MotionVelocityRequest",
            PacketData::MotionTargetRequest(_) => "MotionTargetRequest",
        }
    }
}

/// Whether `s` is ASCII with at most `max` characters.
fn ascii_len_at_most(s: &String, max: usize) -> (r: bool)
    ensures
        r == bounded_ascii(s@, max as int),
{
    if !s.is_ascii() {
        return false;
    }
    let st = s.as_str();
    st.unicode_len() <= max
}

impl DiagnosticKeyValue {
    /// Runtime check of [`DiagnosticKeyValue::wf`].
    pub fn check_wf(&self) -> (r: bool)
        ensures
            r == self.wf(),
    {
        ascii_len_at_most(&self.key, MAX_KEY_VALUE_LEN) && ascii_len_at_most(
            &self.value,
            MAX_KEY_VALUE_LEN,
        )
    }
}

impl PacketFormat {
    /// The envelope is well formed when its payload is.
    pub open spec fn wf(&self) -> bool {
        self@.wf()
    }

    /// Runtime check of [`PacketFormat::wf`].
    pub fn check_wf(&self) -> (r: bool)
        ensures
            r == self.wf(),
    {
        match &self.data {
            PacketData::DiagnosticMsg(m) => {
                if !ascii_len_at_most(&m.name, MAX_NAME_LEN) {
                    return false;
                }
                if !ascii_len_at_most(&m.message, MAX_MESSAGE_LEN) {
                    return false;
                }
                if m.values.len() > MAX_DIAG_VALUES {
                    return false;
                }
                let mut i: usize = 0;
                while i < m.values.len()
                    invariant
                        i <= m.values@.len(),
                        self@.data == PacketDataView::DiagnosticMsg(m@),
                        forall|j: int| 0 <= j < i ==> (#[trigger] m.values@[j]@).wf(),
                    decreases m.values@.len() - i,
                {
                    if !m.values[i].check_wf() {
                        proof {
                            assert(m@.values[i as int] == m.values@[i as int]@);
                            assert(!m@.values[i as int].wf());
                            assert(!m@.wf());
                            assert(self@.data == PacketDataView::DiagnosticMsg(m@));
                        }
                        return false;
                    }
                    i = i + 1;
                }
                proof {
                    assert(forall|j: int|
                        0 <= j < m@.values.len() ==> #[trigger] m@.values[j] == m.values@[j]@);
                }
                true
            },
            PacketData::SubscriptionRequest(sr) => {
                if sr.topics.len() > MAX_SUBSCRIPTION_TOPICS {
                    return false;
                }
                let mut i: usize = 0;
                while i < sr.topics.len()
                    invariant
                        i <= sr.topics@.len(),
                        self@.data == PacketDataView::SubscriptionRequest(sr@),
                        forall|j: int|
                            0 <= j < i ==> bounded_ascii(
                                (#[trigger] sr.topics@[j])@,
                                MAX_TOPIC_LEN as int,
                            ),
                    decreases sr.topics@.len() - i,
                {
                    if !ascii_len_at_most(&sr.topics[i], MAX_TOPIC_LEN) {
                        proof {
                            assert(sr@.topics[i as int] == sr.topics@[i as int]@);
                            assert(!bounded_ascii(sr@.topics[i as int], MAX_TOPIC_LEN as int));
                            assert(!sr@.wf());
                            assert(self@.data == PacketDataView::SubscriptionRequest(sr@));
                        }
                        return false;
                    }
                    i = i + 1;
                }
                proof {
                    assert(forall|j: int|
                        0 <= j < sr@.topics.len() ==> #[trigger] sr@.topics[j] == sr.topics@[j]@);
                }
                true
            },
            _ => true,
        }
    }
}

/// Contract between a payload catalog and the machinery around it: every
/// payload names the fixed topic of its variant.
pub trait PacketDataTrait: Sized {
    /// The topic string of this payload.
    spec fn topic_spec(&self) -> Seq<char>;

    /// The topic under which a packet holding this payload is routed.
    fn topic(&self) -> (r: &'static str)
        ensures
            r@ == self.topic_spec(),
    ;
}

impl PacketDataTrait for PacketData {
    open spec fn topic_spec(&self) -> Seq<char> {
        PacketData::topic_spec(self)
    }

    fn topic(&self) -> (r: &'static str) {
        PacketData::topic(self)
    }
}

/// Contract between a routable record and the router: destination address,
/// topic, and the router's right to stamp the source address on ingress.
pub trait PacketTrait: Sized {
    /// The destination address; `None` means topic-routed.
    spec fn spec_to(&self) -> Option<u16>;

    /// The topic used for subscription matching.
    spec fn spec_topic(&self) -> Seq<char>;

    /// The same record with its source address set to `from`.
    spec fn with_from(self, from: u16) -> Self;

    /// Read the destination address.
    fn get_to(&self) -> (r: Option<u16>)
        ensures
            r == self.spec_to(),
    ;

    /// Read the topic string.
    fn get_topic(&self) -> (r: &str)
        ensures
            r@ == self.spec_topic(),
    ;

    /// Stamp the source address.
    fn set_from(&mut self, from: u16)
        ensures
            *final(self) == old(self).with_from(from),
    ;
}

impl PacketTrait for PacketFormat {
    open spec fn spec_to(&self) -> Option<u16> {
        self.to
    }

    open spec fn spec_topic(&self) -> Seq<char> {
        self.data.topic_spec()
    }

    open spec fn with_from(self, from: u16) -> PacketFormat {
        PacketFormat { from: Some(from), ..self }
    }

    fn get_to(&self) -> (r: Option<u16>) {
        self.to
    }

    fn get_topic(&self) -> (r: &str) {
        self.data.topic()
    }

    fn set_from(&mut self, from: u16) {
        self.from = Some(from);
    }
}

} // verus!
