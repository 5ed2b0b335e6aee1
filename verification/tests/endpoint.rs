use valicore::endpoint::fmt_endpoint;

#[test]
fn fmt_endpoint_basic() {
    let mut buf = [0u8; 48];
    let len = fmt_endpoint("192.168.1.10", 5025, &mut buf);
    assert_eq!(core::str::from_utf8(&buf[..len]).unwrap(), "192.168.1.10:5025");
}

#[test]
fn fmt_endpoint_port_zero_and_max() {
    let mut buf = [7u8; 48];
    let len = fmt_endpoint("h", 0, &mut buf);
    assert_eq!(&buf[..len], b"h:0");
    assert!(buf[len..].iter().all(|&b| b == 7));
    let len = fmt_endpoint("localhost", 65535, &mut buf);
    assert_eq!(&buf[..len], b"localhost:65535");
}

#[test]
fn fmt_endpoint_port_reads_back() {
    for port in [1u16, 9, 10, 99, 100, 5025, 8080, 65535] {
        let mut buf = [0u8; 48];
        let len = fmt_endpoint("10.0.0.1", port, &mut buf);
        let text = core::str::from_utf8(&buf[..len]).unwrap();
        let (_, p) = text.rsplit_once(':').unwrap();
        assert_eq!(p.parse::<u16>().unwrap(), port);
    }
}

#[test]
fn fmt_endpoint_fills_whole_buffer() {
    let addr = "a".repeat(42);
    let mut buf = [0u8; 48];
    let len = fmt_endpoint(&addr, 12345, &mut buf);
    assert_eq!(len, 48);
    assert_eq!(&buf[42..], b":12345");
}
