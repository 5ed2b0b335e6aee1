use valicore::block::{block_data_len, block_digit_count, BlockError};
use valicore::dispatch::{available_gettings, available_settings, find_in, settings};
use valicore::oscilloscope::{
    channel_arg, detect_brand_in, is_on_response, waveform_csv_fields, Oscilloscope,
    ScopeError, ScopeLibrary, ScopeSpec,
};

fn spec(pattern: &str, endian: &str, quirks: &str, cmds: &[(&str, &str)]) -> ScopeSpec {
    ScopeSpec {
        description: format!("{pattern} series"),
        default_ip: "192.168.1.99".to_string(),
        idn_pattern: pattern.to_string(),
        endian: endian.to_string(),
        quirks: quirks.to_string(),
        cmds: cmds.iter().map(|(k, v)| (k.to_string(), v.to_string())).collect(),
    }
}

fn library() -> ScopeLibrary {
    ScopeLibrary {
        port: None,
        scopes: vec![
            (
                "RS".to_string(),
                spec(
                    "Rohde",
                    "little",
                    "",
                    &[
                        ("reset", "*RST"),
                        ("set_v_scale", "CHANnel{ch}:SCALe {val}"),
                        ("get_v_scale", "CHANnel{ch}:SCALe?"),
                        ("check_ch", "CHANnel{ch}:STATe?"),
                        ("get_raw", "CHANnel{ch}:DATA?"),
                        ("set_ch_on", "CHANnel{ch}:STATe ON"),
                        ("set_ch_off", "CHANnel{ch}:STATe OFF"),
                        ("set_h_scale", "TIMebase:SCALe {val}"),
                    ],
                ),
            ),
            (
                "RIGOL".to_string(),
                spec(
                    "rigol",
                    "Big",
                    "*CLS",
                    &[
                        ("reset", "*RST"),
                        ("set_source", ":WAVeform:SOURce CHANnel{ch}"),
                        ("get_raw", ":WAVeform:DATA?"),
                        ("check_ch", ":CHANnel{ch}:DISPlay?"),
                    ],
                ),
            ),
            ("KEYSIGHT".to_string(), spec("KEYSIGHT", "little", "", &[("autoset", ":AUToscale")])),
        ],
    }
}

fn parse_waveform(raw: &str) -> Result<Vec<f64>, String> {
    waveform_csv_fields(raw)
        .iter()
        .map(|s| s.trim().parse::<f64>().map_err(|e| format!("parse '{s}': {e}")))
        .collect()
}

#[test]
fn brands_load() {
    let b = Oscilloscope::brands(&library());
    assert!(b.len() > 0);
    assert!(b.windows(2).all(|w| w[0] <= w[1]));
}

#[test]
fn brands_are_sorted_and_complete() {
    assert_eq!(Oscilloscope::brands(&library()), vec!["KEYSIGHT", "RIGOL", "RS"]);
}

#[test]
fn unknown_brand_error() {
    assert!(Oscilloscope::new("FAKE_BRAND", 5000, &library()).is_err());
}

#[test]
fn unknown_brand_lists_sorted_brands() {
    match Oscilloscope::new("FAKE_BRAND", 5000, &library()) {
        Err(ScopeError::Config(m)) => {
            assert_eq!(m, "unknown brand 'FAKE_BRAND', available: KEYSIGHT, RIGOL, RS")
        }
        _ => panic!("expected a config error"),
    }
}

#[test]
fn new_scope_state() {
    let scope = Oscilloscope::new("RS", 5000, &library()).unwrap();
    assert_eq!(scope.brand(), "RS");
    assert_eq!(scope.default_port(), 5025);
    assert_eq!(scope.timeout_ms(), 5000);
    assert!(!scope.is_connected());
    assert!(scope.active_channels().is_empty());
    assert_eq!(scope.instrument_id(), "OFFLINE");
    let mut lib = library();
    lib.port = Some(4000);
    assert_eq!(Oscilloscope::new("RS", 1, &lib).unwrap().default_port(), 4000);
}

#[test]
fn info_describes_brand() {
    assert_eq!(Oscilloscope::info(&library(), "RS").unwrap(), "RS \u{2014} Rohde series");
    assert_eq!(Oscilloscope::info(&library(), "NOPE").unwrap_err(), "unknown brand 'NOPE'");
}

#[test]
fn cmd_format() {
    let scope = Oscilloscope::new("RS", 5000, &library()).unwrap();
    assert_eq!(
        scope.cmd("set_v_scale", &[("ch", "1"), ("val", "0.5")]).unwrap(),
        "CHANnel1:SCALe 0.5"
    );
}

#[test]
fn cmd_no_alloc() {
    let scope = Oscilloscope::new("RS", 5000, &library()).unwrap();
    assert_eq!(scope.cmd("reset", &[]).unwrap(), "*RST");
}

#[test]
fn cmd_missing() {
    assert!(Oscilloscope::new("RS", 5000, &library()).unwrap().cmd("nonexistent", &[]).is_err());
}

#[test]
fn cmd_missing_message_and_unused_placeholders() {
    let scope = Oscilloscope::new("RS", 5000, &library()).unwrap();
    match scope.cmd("nonexistent", &[]) {
        Err(ScopeError::Config(m)) => assert_eq!(m, "command 'nonexistent' not found for 'RS'"),
        _ => panic!("expected a config error"),
    }
    assert_eq!(scope.cmd("set_v_scale", &[("val", "2")]).unwrap(), "CHANnel{ch}:SCALe 2");
    assert_eq!(scope.cmd("reset", &[("ch", "3")]).unwrap(), "*RST");
    assert_eq!(
        scope.cmd("set_v_scale", &[("ch", "{val}"), ("val", "7")]).unwrap(),
        "CHANnel7:SCALe {val}"
    );
}

#[test]
fn commands_sorted() {
    let scope = Oscilloscope::new("RIGOL", 5000, &library()).unwrap();
    assert_eq!(scope.commands(), vec!["check_ch", "get_raw", "reset", "set_source"]);
}

#[test]
fn available_settings_not_empty() {
    assert!(!available_settings().is_empty());
    assert!(!available_gettings().is_empty());
}

#[test]
fn dispatch_tables_in_order() {
    assert_eq!(available_settings()[0], "channel_on");
    assert_eq!(available_settings().len(), 10);
    assert_eq!(available_gettings()[0], "channel_check");
    assert_eq!(available_gettings().len(), 9);
    let (cmd, params) = find_in(&settings(), "trigger_level").unwrap();
    assert_eq!(cmd, "set_trig_level");
    assert_eq!(params, &["ch", "val"]);
    assert!(find_in(&settings(), "channel_check").is_none());
}

#[test]
fn setting_and_getting_commands() {
    let scope = Oscilloscope::new("RS", 5000, &library()).unwrap();
    assert_eq!(
        scope.setting_command("vertical_scale", &[("ch", "2"), ("val", "0.1")]).unwrap(),
        "CHANnel2:SCALe 0.1"
    );
    assert_eq!(scope.getting_command("vertical_scale", &[("ch", "2")]).unwrap(), "CHANnel2:SCALe?");
    match scope.setting_command("brightness", &[]) {
        Err(ScopeError::Config(m)) => assert_eq!(m, "unknown setting 'brightness'"),
        _ => panic!("expected a config error"),
    }
    match scope.getting_command("brightness", &[]) {
        Err(ScopeError::Config(m)) => assert_eq!(m, "unknown getting 'brightness'"),
        _ => panic!("expected a config error"),
    }
    match scope.setting_command("coupling", &[("ch", "1"), ("val", "DC")]) {
        Err(ScopeError::Config(m)) => assert_eq!(m, "command 'set_coupling' not found for 'RS'"),
        _ => panic!("expected a config error"),
    }
}

#[test]
fn channel_on_off_settings_update_active_channels() {
    let mut scope = Oscilloscope::new("RS", 5000, &library()).unwrap();
    scope.apply_setting("channel_on", &[("ch", "3")]);
    scope.apply_setting("channel_on", &[("ch", "+1")]);
    assert_eq!(scope.active_channels(), vec![1, 3]);
    scope.apply_setting("channel_off", &[("ch", "3")]);
    assert_eq!(scope.active_channels(), vec![1]);
    scope.apply_setting("channel_on", &[("ch", "x")]);
    scope.apply_setting("timebase", &[("ch", "5")]);
    scope.apply_setting("channel_on", &[("val", "5")]);
    assert_eq!(scope.active_channels(), vec![1]);
}

#[test]
fn channel_argument_parsing() {
    assert_eq!(channel_arg(&[("val", "1"), ("ch", "4"), ("ch", "5")]), Some(4));
    assert_eq!(channel_arg(&[("ch", "007")]), Some(7));
    assert_eq!(channel_arg(&[("ch", "256")]), None);
    assert_eq!(channel_arg(&[("ch", "-1")]), None);
    assert_eq!(channel_arg(&[("ch", "+")]), None);
    assert_eq!(channel_arg(&[("ch", "")]), None);
    assert_eq!(channel_arg(&[]), None);
}

#[test]
fn channel_check_normalizes_response() {
    assert_eq!(Oscilloscope::getting_result("channel_check", " 1\n"), "1");
    assert_eq!(Oscilloscope::getting_result("channel_check", "on"), "1");
    assert_eq!(Oscilloscope::getting_result("channel_check", "OFF"), "0");
    assert_eq!(Oscilloscope::getting_result("channel_check", "10"), "0");
    assert_eq!(Oscilloscope::getting_result("timebase", " 1E-3\n"), " 1E-3\n");
    assert!(is_on_response("\tOn \r\n"));
    assert!(!is_on_response("0"));
}

#[test]
fn connection_flow_tracks_channels_and_identity() {
    let lib = library();
    let mut scope = Oscilloscope::new("RIGOL", 5000, &lib).unwrap();
    assert_eq!(scope.quirks_command().unwrap(), "*CLS");
    assert!(Oscilloscope::new("RS", 5000, &lib).unwrap().quirks_command().is_none());
    scope.on_connected();
    assert!(scope.is_connected());
    scope.on_identified(Some("RIGOL TECHNOLOGIES,DS1054Z".to_string()));
    assert_eq!(scope.instrument_id(), "RIGOL TECHNOLOGIES,DS1054Z");
    assert_eq!(scope.channel_probe_command(2).unwrap(), ":CHANnel2:DISPlay?");
    scope.on_channel_probe(1, "1");
    scope.on_channel_probe(2, "0");
    scope.on_channel_probe(3, "ON");
    scope.on_channel_probe(4, "garbage");
    assert_eq!(scope.active_channels(), vec![1, 3]);
    let mut mask_text = [0u8; 32];
    let n = scope.active().fmt_csv(&mut mask_text);
    assert_eq!(&mask_text[..n], b"1,3");
    scope.on_identified(None);
    assert_eq!(scope.instrument_id(), "UNKNOWN");
    assert!(scope.active_channels().is_empty());
    scope.on_channel_probe(2, "1");
    scope.close();
    assert!(!scope.is_connected());
    assert!(scope.active_channels().is_empty());
}

#[test]
fn waveform_source_and_endianness() {
    let lib = library();
    let rigol = Oscilloscope::new("RIGOL", 5000, &lib).unwrap();
    assert_eq!(rigol.source_command("2").unwrap(), ":WAVeform:SOURce CHANnel2");
    assert!(rigol.is_big_endian());
    let rs = Oscilloscope::new("RS", 5000, &lib).unwrap();
    assert!(rs.source_command("2").is_none());
    assert!(!rs.is_big_endian());
    assert!(matches!(rs.channel_probe_command(1), Ok(c) if c == "CHANnel1:STATe?"));
    let ks = Oscilloscope::new("KEYSIGHT", 5000, &lib).unwrap();
    assert!(ks.channel_probe_command(1).is_err());
}

#[test]
fn parse_waveform_csv_ok() {
    assert_eq!(parse_waveform("1.0,2.0,3.0").unwrap(), vec![1.0, 2.0, 3.0]);
}

#[test]
fn parse_waveform_csv_empty() {
    assert!(parse_waveform("").unwrap().is_empty());
}

#[test]
fn waveform_fields_skip_header_and_keep_raw_fields() {
    assert_eq!(waveform_csv_fields("#9000000015 -1.5, 2e-3 ,+4\n"), vec!["9000000015 -1.5", " 2e-3 ", "+4"]);
    assert_eq!(waveform_csv_fields("  DATA: .5,,6,"), vec![".5", "", "6", ""]);
    assert!(waveform_csv_fields("no numbers here").is_empty());
    assert!(parse_waveform("1.0,abc").is_err());
}

#[test]
fn detect_brand_matches_uppercased_pattern() {
    let lib = library();
    assert_eq!(detect_brand_in(&lib, " Rigol Technologies,DS1054Z,DS1ZA,00.04\n").unwrap(), "RIGOL");
    assert_eq!(detect_brand_in(&lib, "rohde&schwarz,RTB2004").unwrap(), "RS");
    match detect_brand_in(&lib, " tektronix,mso44 ") {
        Err(ScopeError::Config(m)) => assert_eq!(m, "no brand matches *IDN? response: TEKTRONIX,MSO44"),
        _ => panic!("expected a config error"),
    }
}

#[test]
fn block_header_fields() {
    assert_eq!(block_digit_count(b'4'), Ok(4));
    assert_eq!(block_digit_count(b'0'), Err(BlockError::InvalidDigitCount(0)));
    assert_eq!(block_digit_count(b'<'), Ok(12));
    assert_eq!(block_digit_count(b'='), Err(BlockError::InvalidDigitCount(13)));
    assert_eq!(block_data_len(b"0012"), Ok(12));
    assert_eq!(block_data_len(b"+7"), Ok(7));
    assert_eq!(block_data_len(b"12a4"), Err(BlockError::InvalidLength));
    assert_eq!(block_data_len(b"-1"), Err(BlockError::InvalidLength));
    assert_eq!(block_data_len(b"99999999999999999999"), Err(BlockError::InvalidLength));
    assert_eq!(block_data_len(&[0xC3, 0xA9]), Err(BlockError::InvalidLength));
}

#[test]
fn header_written_for_a_length_reads_back() {
    for n in [0usize, 7, 10, 4096, 123456789012] {
        let digits = n.to_string();
        assert_eq!(block_digit_count(b'0' + digits.len() as u8), Ok(digits.len()));
        assert_eq!(block_data_len(digits.as_bytes()), Ok(n));
    }
}

#[test]
fn brand_list_does_not_depend_on_library_order() {
    let mut lib = library();
    let before = Oscilloscope::brands(&lib);
    lib.scopes.reverse();
    assert_eq!(Oscilloscope::brands(&lib), before);
    lib.scopes.swap(0, 1);
    assert_eq!(Oscilloscope::brands(&lib), before);
}
