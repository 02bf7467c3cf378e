use genai_core::config::{parse_port, AppConfig};

#[test]
fn parses_plain_ports() {
    assert_eq!(parse_port("8083"), Some(8083));
    assert_eq!(parse_port("0"), Some(0));
    assert_eq!(parse_port("65535"), Some(65535));
    assert_eq!(parse_port("000080"), Some(80));
}

#[test]
fn accepts_a_leading_plus_sign() {
    assert_eq!(parse_port("+80"), Some(80));
    assert_eq!(parse_port("+"), None);
}

#[test]
fn rejects_bad_numerals() {
    assert_eq!(parse_port(""), None);
    assert_eq!(parse_port("65536"), None);
    assert_eq!(parse_port("99999999999999999999"), None);
    assert_eq!(parse_port("12a"), None);
    assert_eq!(parse_port("-1"), None);
    assert_eq!(parse_port(" 80"), None);
    assert_eq!(parse_port("8 0"), None);
}

#[test]
fn defaults_apply_when_settings_are_absent() {
    let c = AppConfig::from_raw(None, None, None, None, None, None);
    assert_eq!(c.port, 8083);
    assert_eq!(c.llm_base_url, "");
    assert_eq!(c.llm_model_name, "");
    assert_eq!(c.log_level, "info");
}

#[test]
fn preferred_variables_win_over_legacy_ones() {
    let c = AppConfig::from_raw(
        Some("9000".to_string()),
        Some("http://runner:12434".to_string()),
        Some("http://legacy:8000".to_string()),
        None,
        Some("legacy-model".to_string()),
        Some("debug".to_string()),
    );
    assert_eq!(c.port, 9000);
    assert_eq!(c.llm_base_url, "http://runner:12434");
    assert_eq!(c.llm_model_name, "legacy-model");
    assert_eq!(c.log_level, "debug");
}

#[test]
fn unreadable_port_falls_back() {
    let c = AppConfig::from_raw(Some("not-a-port".to_string()), None, None, None, None, None);
    assert_eq!(c.port, 8083);
}
