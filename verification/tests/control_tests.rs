use robot_fabric::AdapterStats;
use robot_fabric::Clock;
use robot_fabric::ClockRequest;
use robot_fabric::ClockResponse;
use robot_fabric::Encoder;
use robot_fabric::Encoders;
use robot_fabric::MotionState;
use robot_fabric::MotorDriver;
use robot_fabric::PacketData;
use robot_fabric::PacketFormat;
use robot_fabric::check_encoder;
use robot_fabric::clock_response_for;
use robot_fabric::is_target_device;
use robot_fabric::mix_wheel_speeds;
use robot_fabric::str_contains;
use robot_fabric::u32_to_decimal;
use robot_fabric::val_to_dir;

// Feeding many clock responses with a fixed true offset and jittered
// round trips converges the estimator to the true offset well within
// five percent.
#[test]
fn test_clock_offset_convergence() {
    let true_offset: u64 = 1_000_000_000;
    let mut clock = Clock::new();
    let mut local: u64 = 0;

    for i in 0u64..1000 {
        let jitter = (i * 37) % 500;
        let latency = 1000 + jitter / 2;
        let request_time = local;
        let host_receive = request_time + latency + true_offset;
        local = request_time + 2 * latency;
        clock.handle_clock_response(
            local,
            &ClockResponse { request_time, received_time: host_receive },
        );
        local += 1000;
    }

    let offset = clock.offset.expect("offset initialised");
    let error = if offset >= true_offset {
        offset - true_offset
    } else {
        true_offset - offset
    };
    assert!(error <= true_offset / 20, "offset {} too far from {}", offset, true_offset);
}

#[test]
fn test_clock_first_sample_initialises_both_filters() {
    let mut clock = Clock::new();
    let rtt = clock.handle_clock_response(
        5_000,
        &ClockResponse { request_time: 1_000, received_time: 800_000 },
    );
    assert_eq!(rtt, 4_000);
    assert_eq!(clock.average_round_trip_time, Some(4_000));
    assert_eq!(clock.offset, Some(802_000));
    assert_eq!(clock.get_time(10_000), 812_000);
}

#[test]
fn test_clock_smoothing_formulas() {
    let mut clock = Clock::new();
    clock.average_round_trip_time = Some(2_000);
    clock.offset = Some(900_000);
    let rtt = clock.handle_clock_response(
        13_000,
        &ClockResponse { request_time: 10_000, received_time: 950_000 },
    );
    // (2000 * 19 + 3000) / 20 = 2050
    assert_eq!(rtt, 2_050);
    // offset sample: 950000 + 2050 / 2 = 951025; (900000 * 7 + 951025) / 8
    assert_eq!(clock.offset, Some((900_000u64 * 7 + 951_025) / 8));
}

#[test]
fn test_clock_response_for_request() {
    let packet = PacketFormat {
        to: None,
        from: Some(3),
        data: PacketData::ClockRequest(ClockRequest { request_time: 1234 }),
        time: 0,
        id: 9,
    };
    let reply = clock_response_for(&packet, 5555).expect("a request draws a reply");
    assert_eq!(reply.to, Some(3));
    assert_eq!(reply.from, None);
    assert_eq!(reply.id, 9);
    assert_eq!(reply.time, 5555);
    match reply.data {
        PacketData::ClockResponse(r) => {
            assert_eq!(r.request_time, 1234);
            assert_eq!(r.received_time, 5555);
        },
        _ => unreachable!(),
    }
}

// After a full-speed velocity request and one second of silence, the
// watchdog reports zero for both wheels, and the drivers put zero duty
// on every channel.
#[test]
fn test_motor_watchdog() {
    let mut motion = MotionState::new();
    motion.on_velocity_request(0, 1000, 0);

    let (left, right) = motion.tick(999_999);
    assert_eq!((left, right), (1000, 1000));

    let (left, right) = motion.tick(1_000_000);
    assert_eq!((left, right), (0, 0));

    let mut left_driver = MotorDriver::new(1024, 1024);
    let mut right_driver = MotorDriver::new(1024, 1024);
    left_driver.set_speed(left);
    right_driver.set_speed(right);
    assert_eq!((left_driver.duty_a, left_driver.duty_b), (0, 0));
    assert_eq!((right_driver.duty_a, right_driver.duty_b), (0, 0));
}

#[test]
fn test_motor_duty_formulas() {
    let mut driver = MotorDriver::new(1024, 1024);

    driver.set_speed(500);
    assert_eq!(driver.duty_a, 512);
    assert_eq!(driver.duty_b, 1024);

    driver.set_speed(-500);
    assert_eq!(driver.duty_a, 1024);
    assert_eq!(driver.duty_b, 512);

    // Clamped to full scale.
    driver.set_speed(2000);
    assert_eq!(driver.duty_a, 0);
    assert_eq!(driver.duty_b, 1024);

    // Deadband.
    driver.set_speed(5);
    assert_eq!(driver.duty_a, 0);
    assert_eq!(driver.duty_b, 0);
}

#[test]
fn test_mix_wheel_speeds() {
    assert_eq!(mix_wheel_speeds(500, 200), (300, 700));
    // Saturation surrenders linear speed, preserving the angular
    // difference of 2 * 500.
    assert_eq!(mix_wheel_speeds(800, 500), (0, 1000));
    assert_eq!(mix_wheel_speeds(-800, 500), (-1000, 0));
    // Inputs beyond full scale are clamped first.
    assert_eq!(mix_wheel_speeds(5000, 0), (1000, 1000));
}

#[test]
fn test_encoder_counting() {
    assert_eq!(val_to_dir(true, false), 1);
    assert_eq!(val_to_dir(false, false), -1);

    let mut encoder = Encoder { count: 10 };
    // A edge latched, lines differ: +1.
    check_encoder(&mut encoder, true, false, true, false);
    assert_eq!(encoder.count, 11);
    // B edge latched, lines differ: -1.
    check_encoder(&mut encoder, false, true, true, false);
    assert_eq!(encoder.count, 10);
    // Both latched: the two cancel.
    check_encoder(&mut encoder, true, true, false, false);
    assert_eq!(encoder.count, 10);

    let mut encoders = Encoders::new();
    encoders.left.count = 7;
    encoders.right.count = -3;
    let (left, right) = encoders.take_counts();
    assert_eq!((left, right), (7, -3));
    assert_eq!(encoders.left.count, 0);
    assert_eq!(encoders.right.count, 0);
}

#[test]
fn test_decimal_rendering() {
    assert_eq!(u32_to_decimal(0), "0");
    assert_eq!(u32_to_decimal(7), "7");
    assert_eq!(u32_to_decimal(120), "120");
    assert_eq!(u32_to_decimal(u32::MAX), "4294967295");
}

#[test]
fn test_stats_report() {
    let mut stats = AdapterStats::new();
    stats.rx_packets = 12;
    stats.decode_error_count = 3;
    let report = stats.to_log("websocket_stats");
    assert_eq!(report.name, "websocket_stats");
    assert_eq!(report.message, "");
    assert_eq!(report.values.len(), 7);
    assert_eq!(report.values[0].key, "decode_errors");
    assert_eq!(report.values[0].value, "3");
    assert_eq!(report.values[3].key, "rx_packets");
    assert_eq!(report.values[3].value, "12");
    assert_eq!(report.values[6].key, "write_errors");
    assert_eq!(report.values[6].value, "0");
}

#[test]
fn test_packet_sequencer_wraps() {
    let mut sequencer = robot_fabric::PacketSequencer::new();
    let first = sequencer.next_packet(
        PacketData::ClockRequest(ClockRequest { request_time: 1 }),
        Some(5),
        100,
    );
    assert_eq!(first.id, 0);
    assert_eq!(first.to, Some(5));
    assert_eq!(first.from, None);
    assert_eq!(first.time, 100);

    sequencer.message_id = u32::MAX;
    let wrapped = sequencer.next_packet(
        PacketData::ClockRequest(ClockRequest { request_time: 2 }),
        None,
        200,
    );
    assert_eq!(wrapped.id, u32::MAX);
    assert_eq!(sequencer.message_id, 0);
}

#[test]
fn test_target_device_recognition() {
    assert!(is_target_device(true, 0x303A, "/dev/ttyACM0"));
    assert!(!is_target_device(true, 0x1234, "/dev/ttyACM0"));
    assert!(is_target_device(
        false,
        0,
        "/dev/serial/by-id/usb-Espressif_USB_JTAG_serial_debug_unit_98:3D:AE:52:AD:78-if00",
    ));
    assert!(!is_target_device(false, 0, "/dev/ttyUSB0"));

    assert!(str_contains("hello world", "lo wo"));
    assert!(!str_contains("hello", "world"));
    assert!(str_contains("abc", ""));
}
