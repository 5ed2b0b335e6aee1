use valicore::csv::csv_document;
use valicore::signal::{trim_numeral, FilterKind, WindowKind};

fn strings(v: &[&str]) -> Vec<String> {
    v.iter().map(|s| s.to_string()).collect()
}

#[test]
fn csv_document_layout() {
    let meta = vec![("sample_rate".to_string(), "1000".to_string()), ("instrument".to_string(), "TEST".to_string())];
    let labels = strings(&["ch1", "ch2"]);
    let time = strings(&["0", "0.001", "0.002"]);
    let data = vec![strings(&["0", "1", "0"]), strings(&["1", "0", "-1"])];
    let text = csv_document(&meta, &labels, &time, &data);
    assert_eq!(
        text,
        "# sample_rate: 1000\n# instrument: TEST\ntime,ch1,ch2\n0,0,1\n0.001,1,0\n0.002,0,-1\n"
    );
    let lines: Vec<&str> = text.lines().collect();
    assert_eq!(lines.len(), 6);
    assert_eq!(lines[2], "time,ch1,ch2");
    assert!(lines[3].contains("0,0,1"));
}

#[test]
fn csv_document_short_channel_and_no_metadata() {
    let text = csv_document(&vec![], &strings(&["a", "b"]), &strings(&["0", "1"]), &vec![strings(&["5", "6"]), strings(&["7"])]);
    assert_eq!(text, "time,a,b\n0,5,7\n1,6,\n");
    assert!(!text.contains('#'));
    let single = csv_document(&vec![], &strings(&["voltage"]), &strings(&["0", "1", "2"]), &vec![strings(&["10", "20", "30"])]);
    assert!(single.contains("time,voltage"));
    assert!(single.contains("0,10"));
}

#[test]
fn numerals_lose_trailing_fraction_zeros() {
    assert_eq!(trim_numeral("1.2500000000"), "1.25");
    assert_eq!(trim_numeral("3.0000000000"), "3");
    assert_eq!(trim_numeral("0.0000000000"), "0");
    assert_eq!(trim_numeral("-0.0010000000"), "-0.001");
    assert_eq!(trim_numeral("100.0000000000"), "100");
    assert_eq!(trim_numeral(&format!("{:.10}", 0.001)), "0.001");
}

#[test]
fn window_and_filter_names() {
    assert_eq!(WindowKind::resolve("Hanning"), Ok(WindowKind::Hann));
    assert_eq!(WindowKind::resolve("HANN"), Ok(WindowKind::Hann));
    assert_eq!(WindowKind::resolve("hamming"), Ok(WindowKind::Hamming));
    assert_eq!(WindowKind::resolve("Blackman"), Ok(WindowKind::Blackman));
    assert_eq!(WindowKind::resolve("flat_top"), Ok(WindowKind::FlatTop));
    assert_eq!(WindowKind::resolve("None"), Ok(WindowKind::Rectangular));
    assert_eq!(WindowKind::resolve("rectangular"), Ok(WindowKind::Rectangular));
    assert_eq!(WindowKind::resolve("foo"), Err("unknown window type: foo".to_string()));
    assert_eq!(FilterKind::resolve("LowPass"), Ok(FilterKind::Lowpass));
    assert_eq!(FilterKind::resolve("highpass"), Ok(FilterKind::Highpass));
    assert_eq!(FilterKind::resolve("bandpass"), Err("unknown filter type: bandpass".to_string()));
}

#[test]
fn apply_window_unknown() {
    assert!(WindowKind::resolve("foo").is_err());
}

#[test]
fn filter_order_checked_before_name() {
    assert_eq!(FilterKind::with_order("lowpass", 0), Err("filter order must be 1..=8".to_string()));
    assert_eq!(FilterKind::with_order("lowpass", 9), Err("filter order must be 1..=8".to_string()));
    assert_eq!(FilterKind::with_order("bandpass", 9), Err("filter order must be 1..=8".to_string()));
    assert_eq!(FilterKind::with_order("bandpass", 1), Err("unknown filter type: bandpass".to_string()));
    assert_eq!(FilterKind::with_order("HighPass", 8), Ok(FilterKind::Highpass));
    assert_eq!(FilterKind::with_order("lowpass", 1), Ok(FilterKind::Lowpass));
}
