//! Adapter statistics and their diagnostic reports.
//!
//! Each transport adapter counts its traffic and errors and publishes
//! them once a second as a [`DiagnosticMsg`] whose values are the
//! counters rendered in decimal.

use vstd::prelude::*;

use crate::topics::DiagnosticKeyValue;
use crate::topics::DiagnosticMsg;
use crate::topics::DiagnosticStatus;
use crate::topics::KeyValueView;

verus! {

/// The decimal digits of `n`, most significant first.
pub open spec fn dec_digits(n: nat) -> Seq<char>
    decreases n,
{
    if n < 10 {
        seq![((48 + n) as u8) as char]
    } else {
        dec_digits(n / 10).push(((48 + n % 10) as u8) as char)
    }
}

spec fn pow10(k: nat) -> nat
    decreases k,
{
    if k == 0 {
        1
    } else {
        10 * pow10((k - 1) as nat)
    }
}

proof fn lemma_dec_digits_len(n: nat, k: nat)
    requires
        k >= 1,
        n < pow10(k),
    ensures
        1 <= dec_digits(n).len() <= k,
    decreases k,
{
    if n >= 10 {
        assert(pow10(k) == 10 * pow10((k - 1) as nat));
        assert(k >= 2) by {
            if k == 1 {
                assert(pow10(1nat) == 10);
            }
        }
        assert(n / 10 < pow10((k - 1) as nat));
        lemma_dec_digits_len(n / 10, (k - 1) as nat);
    }
}

proof fn lemma_dec_digits_ascii(n: nat)
    ensures
        forall|i: int|
            0 <= i < dec_digits(n).len() ==> 48 <= (#[trigger] dec_digits(n)[i]) as u8 <= 57,
        vstd::utf8::is_ascii_chars(dec_digits(n)),
    decreases n,
{
    if n >= 10 {
        lemma_dec_digits_ascii(n / 10);
    }
}

fn push_decimal(out: &mut Vec<u8>, n: u32)
    ensures
        final(out)@.len() == old(out)@.len() + dec_digits(n as nat).len(),
        forall|i: int| 0 <= i < old(out)@.len() ==> final(out)@[i] == old(out)@[i],
        forall|i: int|
            0 <= i < dec_digits(n as nat).len() ==> final(out)@[old(out)@.len() + i] == (
            #[trigger] dec_digits(n as nat)[i]) as u8,
    decreases n,
{
    if n < 10 {
        out.push(48 + (n as u8));
    } else {
        push_decimal(out, n / 10);
        out.push(48 + ((n % 10) as u8));
        proof {
            lemma_dec_digits_ascii(n as nat);
        }
    }
}

/// `n` rendered in decimal, as a string of at most ten digits.
pub fn u32_to_decimal(n: u32) -> (r: String)
    ensures
        r@ == dec_digits(n as nat),
        1 <= r@.len() <= 10,
        vstd::utf8::is_ascii_chars(r@),
{
    proof {
        lemma_dec_digits_ascii(n as nat);
        assert(pow10(10nat) == 10_000_000_000) by {
            reveal_with_fuel(pow10, 11);
        }
        lemma_dec_digits_len(n as nat, 10);
    }
    let mut bytes: Vec<u8> = Vec::new();
    push_decimal(&mut bytes, n);
    proof {
        assert forall|i: int| 0 <= i < bytes@.len() implies bytes@[i] < 128 by {
            assert(bytes@[0 + i] == dec_digits(n as nat)[i] as u8);
            assert(48 <= dec_digits(n as nat)[i] as u8 <= 57);
        }
    }
    let r = crate::decode::ascii_to_string(bytes);
    proof {
        assert(r@ =~= dec_digits(n as nat)) by {
            assert forall|i: int| 0 <= i < dec_digits(n as nat).len() implies r@[i] == dec_digits(
                n as nat,
            )[i] by {
                assert(48 <= dec_digits(n as nat)[i] as u8 <= 57);
            }
        }
    }
    r
}

/// The serial adapter's counters, published under the name
/// `serial_stats`.
pub type SerialClientStats = AdapterStats;

/// The websocket adapter's counters, published under the name
/// `websocket_stats`.
pub type WebsocketClientStats = AdapterStats;

/// Traffic and error counters of one transport adapter.
#[derive(Clone, Copy, Debug, PartialEq, Eq, Structural)]
pub struct AdapterStats {
    pub decode_error_count: u32,
    pub tx_packets: u32,
    pub tx_bytes: u32,
    pub rx_packets: u32,
    pub rx_bytes: u32,
    pub encode_error_count: u32,
    pub write_error_count: u32,
}

/// The seven entries of a stats report, in their fixed order.
pub open spec fn stats_values(s: AdapterStats) -> Seq<KeyValueView> {
    seq![
        KeyValueView { key: "decode_errors"@, value: dec_digits(s.decode_error_count as nat) },
        KeyValueView { key: "tx_packets"@, value: dec_digits(s.tx_packets as nat) },
        KeyValueView { key: "tx_bytes"@, value: dec_digits(s.tx_bytes as nat) },
        KeyValueView { key: "rx_packets"@, value: dec_digits(s.rx_packets as nat) },
        KeyValueView { key: "rx_bytes"@, value: dec_digits(s.rx_bytes as nat) },
        KeyValueView { key: "encode_errors"@, value: dec_digits(s.encode_error_count as nat) },
        KeyValueView { key: "write_errors"@, value: dec_digits(s.write_error_count as nat) },
    ]
}

impl AdapterStats {
    /// Fresh counters, all zero.
    pub fn new() -> (r: AdapterStats)
        ensures
            r == (AdapterStats {
                decode_error_count: 0u32,
                tx_packets: 0u32,
                tx_bytes: 0u32,
                rx_packets: 0u32,
                rx_bytes: 0u32,
                encode_error_count: 0u32,
                write_error_count: 0u32,
            }),
    {
        AdapterStats {
            decode_error_count: 0,
            tx_packets: 0,
            tx_bytes: 0,
            rx_packets: 0,
            rx_bytes: 0,
            encode_error_count: 0,
            write_error_count: 0,
        }
    }

    /// The diagnostic report of these counters: level `Ok`, the given
    /// adapter name, an empty message, and the seven counters in decimal
    /// under their fixed keys.
    pub fn to_log(&self, name: &str) -> (r: DiagnosticMsg)
        requires
            vstd::utf8::is_ascii_chars(name@),
            name@.len() <= 16,
        ensures
            r@.level == DiagnosticStatus::Okay,
            r@.name == name@,
            r@.message == Seq::<char>::empty(),
            r@.values == stats_values(*self),
            r.wf(),
    {
        proof {
            reveal_strlit("decode_errors");
            reveal_strlit("tx_packets");
            reveal_strlit("tx_bytes");
            reveal_strlit("rx_packets");
            reveal_strlit("rx_bytes");
            reveal_strlit("encode_errors");
            reveal_strlit("write_errors");
            reveal_strlit("");
        }
        let mut values: Vec<DiagnosticKeyValue> = Vec::new();
        values.push(
            DiagnosticKeyValue {
                key: String::from_str("decode_errors"),
                value: u32_to_decimal(self.decode_error_count),
            },
        );
        values.push(
            DiagnosticKeyValue {
                key: String::from_str("tx_packets"),
                value: u32_to_decimal(self.tx_packets),
            },
        );
        values.push(
            DiagnosticKeyValue {
                key: String::from_str("tx_bytes"),
                value: u32_to_decimal(self.tx_bytes),
            },
        );
        values.push(
            DiagnosticKeyValue {
                key: String::from_str("rx_packets"),
                value: u32_to_decimal(self.rx_packets),
            },
        );
        values.push(
            DiagnosticKeyValue {
                key: String::from_str("rx_bytes"),
                value: u32_to_decimal(self.rx_bytes),
            },
        );
        values.push(
            DiagnosticKeyValue {
                key: String::from_str("encode_errors"),
                value: u32_to_decimal(self.encode_error_count),
            },
        );
        values.push(
            DiagnosticKeyValue {
                key: String::from_str("write_errors"),
                value: u32_to_decimal(self.write_error_count),
            },
        );
        let r = DiagnosticMsg {
            level: DiagnosticStatus::Okay,
            name: String::from_str(name),
            message: String::from_str(""),
            values,
        };
        proof {
            assert(r@.values =~= stats_values(*self));
            assert(r@.wf());
        }
        r
    }
}

} // verus!
