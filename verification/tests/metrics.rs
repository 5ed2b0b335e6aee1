use valicore::metrics::Counters;

#[test]
fn record_signal_processing_increments() {
    let mut c = Counters::new();
    let before = c.signal_processing_calls();
    c.record_signal_processing(500);
    let after = c.signal_processing_calls();
    assert_eq!(after, before + 1);
}

#[test]
fn counters_accumulate_durations() {
    let mut c = Counters::new();
    c.record_signal_processing(500);
    c.record_signal_processing(250);
    c.record_tcp_query(40);
    c.record_instrument_connected();
    c.record_instrument_connected();
    assert_eq!(c.signal_processing_calls(), 2);
    assert_eq!(c.signal_processing_total_us(), 750);
    assert_eq!(c.tcp_queries(), 1);
    assert_eq!(c.tcp_query_total_us(), 40);
    assert_eq!(c.instrument_connections(), 2);
}

#[test]
fn counters_wrap_around() {
    let mut c = Counters::new();
    c.record_tcp_query(u64::MAX);
    c.record_tcp_query(2);
    assert_eq!(c.tcp_query_total_us(), 1);
    assert_eq!(c.tcp_queries(), 2);
}

#[test]
fn repeated_calls_each_count_once() {
    let mut c = Counters::new();
    for _ in 0..7 {
        c.record_signal_processing(10);
    }
    assert_eq!(c.signal_processing_calls(), 7);
    assert_eq!(c.signal_processing_total_us(), 70);
    assert_eq!(c.tcp_queries(), 0);
}
