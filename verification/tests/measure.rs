use sequencer::measure::MeasureDs;
use sequencer::report::{header_line, push_decimal, push_padded, round_line};

#[test]
fn new_measurements_are_empty() {
    let m = MeasureDs::new();
    assert_eq!(m.rounds(), 0);
    assert_eq!(m.bytes_sent(), 0);
    assert_eq!(m.bytes_recv(), 0);
    assert_eq!(m.write_measurements(0, 4, 8), vec!["index: 0, node_num: 4, payload_size: 8"]);
}

#[test]
fn bytes_are_counted_until_the_round_ends() {
    let mut m = MeasureDs::new();
    m.incr_bytes_sent(10);
    m.incr_bytes_sent(5);
    m.incr_bytes_recv(7);
    assert_eq!(m.bytes_sent(), 15);
    assert_eq!(m.bytes_recv(), 7);
    m.append_round(1000);
    assert_eq!(m.rounds(), 1);
    assert_eq!(m.bytes_sent(), 0);
    assert_eq!(m.bytes_recv(), 0);
}

#[test]
fn report_has_a_line_for_each_round() {
    let mut m = MeasureDs::new();
    // what is counted before the first round begins is put down for round 0
    m.incr_bytes_sent(3);
    m.append_round(5000);
    m.incr_bytes_sent(120);
    m.incr_bytes_recv(4500);
    m.append_round(6000);
    m.incr_bytes_sent(7);
    m.append_round(7000);
    m.measure_latency(1, 6042);
    assert_eq!(
        m.write_measurements(2, 4, 10000000),
        vec![
            "index: 2, node_num: 4, payload_size: 10000000",
            "r000: INF 3 0",
            "r001: 42 120 4500",
            "r002: INF 7 0",
        ]
    );
    m.measure_latency(0, 5017);
    m.measure_latency(2, 7000);
    assert_eq!(
        m.write_measurements(2, 4, 10000000),
        vec![
            "index: 2, node_num: 4, payload_size: 10000000",
            "r000: 17 3 0",
            "r001: 42 120 4500",
            "r002: 0 7 0",
        ]
    );
}

#[test]
fn latency_is_nothing_when_the_clock_ran_backwards() {
    let mut m = MeasureDs::new();
    m.append_round(100);
    m.measure_latency(0, 99);
    assert_eq!(m.write_measurements(0, 1, 0)[1], "r000: 0 0 0");
}

#[test]
fn decimal_spelling() {
    for n in [0u128, 7, 9, 10, 11, 99, 100, 101, 999, 1000, 4294967295, u128::MAX] {
        let mut s = String::from("x");
        push_decimal(&mut s, n);
        assert_eq!(s, format!("x{}", n));
    }
}

#[test]
fn padded_spelling() {
    for n in [0u128, 7, 9, 10, 11, 99, 100, 101, 999, 1000, 123456] {
        let mut s = String::new();
        push_padded(&mut s, n);
        assert_eq!(s, format!("{:03}", n));
    }
}

#[test]
fn report_lines() {
    assert_eq!(header_line(3, 7, 0), "index: 3, node_num: 7, payload_size: 0");
    assert_eq!(round_line(0, None, 1, 2), "r000: INF 1 2");
    assert_eq!(round_line(12, Some(345), 0, 99), "r012: 345 0 99");
    assert_eq!(round_line(1234, Some(0), 10, 20), "r1234: 0 10 20");
}

#[test]
fn a_round_that_was_never_delivered_stays_inf_when_a_later_one_is() {
    let mut m = MeasureDs::new();
    m.incr_bytes_sent(11);
    m.incr_bytes_recv(12);
    m.append_round(1000);
    m.incr_bytes_sent(21);
    m.incr_bytes_recv(22);
    m.append_round(2000);
    m.measure_latency(1, 2345);
    assert_eq!(
        m.write_measurements(0, 4, 8),
        vec!["index: 0, node_num: 4, payload_size: 8", "r000: INF 11 12", "r001: 345 21 22"]
    );
    // a delivery at the very begin of the round is a latency of 0, not INF
    m.measure_latency(0, 1000);
    assert_eq!(m.write_measurements(0, 4, 8)[1], "r000: 0 11 12");
}

#[test]
fn a_second_delivery_time_replaces_the_first() {
    let mut m = MeasureDs::new();
    m.append_round(10);
    m.measure_latency(0, 15);
    m.measure_latency(0, 40);
    assert_eq!(m.write_measurements(0, 1, 0)[1], "r000: 30 0 0");
}
