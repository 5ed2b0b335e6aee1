use valicore::instrument::{
    create_instrument, instrument_for_step, parse_resource, InstrumentConfig, SCPIInstrument, TcpInstrument,
};

#[test]
fn parse_resource_standard() {
    let (addr, port) = parse_resource("TCPIP0::192.168.1.10::inst0::INSTR");
    assert_eq!(addr, "192.168.1.10");
    assert_eq!(port, 5025);
}

#[test]
fn parse_resource_missing() {
    let (addr, port) = parse_resource("garbage");
    assert_eq!(addr, "127.0.0.1");
    assert_eq!(port, 5025);
}

#[test]
fn parse_resource_two_fields_and_empty_host() {
    assert_eq!(parse_resource("TCPIP0::10.1.2.3").0, "10.1.2.3");
    assert_eq!(parse_resource("TCPIP0::::INSTR").0, "");
    assert_eq!(parse_resource("a::b::c::d::e::f::g::h").0, "b");
    assert_eq!(parse_resource("").0, "127.0.0.1");
    assert_eq!(parse_resource("host:5025").0, "127.0.0.1");
}

#[test]
fn create_instrument_kind() {
    let instr = create_instrument("dmm", "TCPIP0::1.2.3.4::inst0::INSTR", 5000);
    assert_eq!(instr.kind(), "dmm");
    assert_eq!(instr.resource(), "TCPIP0::1.2.3.4::inst0::INSTR");
}

#[test]
fn tcp_instrument_initial_state() {
    let instr = TcpInstrument::new("TCPIP0::10.0.0.1::INSTR", "scope", 3000);
    assert_eq!(instr.kind(), "scope");
    assert!(!instr.is_connected());
}

#[test]
fn tcp_instrument_address_port_and_connection_flag() {
    let mut instr = TcpInstrument::new("TCPIP0::10.0.0.1::INSTR", "scope", 3000);
    assert_eq!(instr.addr(), "10.0.0.1");
    assert_eq!(instr.port(), 5025);
    assert_eq!(instr.timeout_ms(), 3000);
    instr.set_connected(true);
    assert!(instr.is_connected());
    assert_eq!(instr.addr(), "10.0.0.1");
    instr.set_connected(false);
    assert!(!instr.is_connected());
}

#[test]
fn step_instrument_from_campaign_config() {
    let configs = vec![
        (
            "my_dmm".to_string(),
            InstrumentConfig {
                kind: "keysight_34460a".to_string(),
                resource: "TCPIP0::10.0.0.7::inst0::INSTR".to_string(),
                timeout_ms: None,
            },
        ),
        (
            "scope".to_string(),
            InstrumentConfig {
                kind: "rigol".to_string(),
                resource: "TCPIP0::10.0.0.8::INSTR".to_string(),
                timeout_ms: Some(1500),
            },
        ),
    ];
    let dmm = instrument_for_step(&configs, "my_dmm").unwrap();
    assert_eq!(dmm.kind(), "keysight_34460a");
    assert_eq!(dmm.resource(), "TCPIP0::10.0.0.7::inst0::INSTR");
    assert_eq!(dmm.addr(), "10.0.0.7");
    assert_eq!(dmm.port(), 5025);
    assert_eq!(dmm.timeout_ms(), 5000);
    assert!(!dmm.is_connected());
    let scope = instrument_for_step(&configs, "scope").unwrap();
    assert_eq!(scope.timeout_ms(), 1500);
    assert_eq!(scope.addr(), "10.0.0.8");
    match instrument_for_step(&configs, "psu") {
        Err(m) => assert_eq!(m, "instrument 'psu' not defined in campaign"),
        Ok(_) => panic!("an undefined instrument was created"),
    }
}
