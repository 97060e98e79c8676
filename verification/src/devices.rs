//! Serial device identification.
//!
//! The host adapter scans the machine's serial ports and opens only the
//! robot's debug units; the recognition rule over a port's USB vendor id
//! and device path lives here, on plain values.

use vstd::prelude::*;

verus! {

/// The USB vendor id of the robot's microcontroller family.
pub const TARGET_VENDOR_ID: u16 = 0x303A;

/// `needle` occurs contiguously within `hay`.
pub open spec fn contains_seq(hay: Seq<char>, needle: Seq<char>) -> bool {
    exists|i: int|
        0 <= i && i + needle.len() <= hay.len() && #[trigger] hay.subrange(i, i + needle.len())
            == needle
}

/// Substring search by character comparison.
pub fn str_contains(hay: &str, needle: &str) -> (r: bool)
    ensures
        r == contains_seq(hay@, needle@),
{
    let hay_len = hay.unicode_len();
    let needle_len = needle.unicode_len();
    if needle_len > hay_len {
        return false;
    }
    if needle_len == 0 {
        proof {
            assert(hay@.subrange(0, 0 + needle@.len() as int) =~= needle@);
        }
        return true;
    }
    let mut i: usize = 0;
    while i <= hay_len - needle_len
        invariant
            hay_len == hay@.len(),
            needle_len == needle@.len(),
            1 <= needle_len <= hay_len,
            i <= hay_len - needle_len + 1,
            forall|t: int| 0 <= t < i ==> #[trigger] hay@.subrange(t, t + needle@.len())
                != needle@,
        decreases hay_len - needle_len - i + 1,
    {
        let mut k: usize = 0;
        let mut matched = true;
        while matched && k < needle_len
            invariant
                k <= needle_len,
                needle_len == needle@.len(),
                hay_len == hay@.len(),
                i + needle_len <= hay_len,
                matched ==> forall|t: int| 0 <= t < k ==> hay@[i + t] == needle@[t],
                !matched ==> hay@.subrange(i as int, i + needle@.len()) != needle@,
            decreases needle_len - k + (if matched {
                1int
            } else {
                0int
            }),
        {
            if hay.get_char(i + k) != needle.get_char(k) {
                proof {
                    assert(hay@.subrange(i as int, i + needle@.len())[k as int] == hay@[i + k]);
                }
                matched = false;
            } else {
                k = k + 1;
            }
        }
        if matched {
            proof {
                assert(hay@.subrange(i as int, i + needle@.len()) =~= needle@) by {
                    assert forall|t: int|
                        0 <= t < needle@.len() implies #[trigger] hay@.subrange(
                        i as int,
                        i + needle@.len(),
                    )[t] == needle@[t] by {
                        assert(hay@.subrange(i as int, i + needle@.len())[t] == hay@[i + t]);
                    }
                }
            }
            return true;
        }
        i = i + 1;
    }
    false
}

/// Whether a serial port is one of the robot's debug units: a USB port
/// with the microcontroller family's vendor id, or any port whose path
/// names the debug unit.
pub fn is_target_device(is_usb: bool, vendor_id: u16, port_name: &str) -> (r: bool)
    ensures
        r == ((is_usb && vendor_id == TARGET_VENDOR_ID) || contains_seq(
            port_name@,
            "usb-Espressif_USB_JTAG_serial_debug_unit"@,
        )),
{
    if is_usb && vendor_id == TARGET_VENDOR_ID {
        return true;
    }
    str_contains(port_name, "usb-Espressif_USB_JTAG_serial_debug_unit")
}

} // verus!
