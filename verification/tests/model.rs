use escom::model::{parse_baud_rate, SerialConfig, MAX_BAUD_RATE};

#[test]
fn serial_config_validation_rejects_missing_port_and_bad_baud() {
    let mut config = SerialConfig::default();
    assert!(config.validate().is_err());
    config.port_name = "COM5".into();
    assert!(config.validate().is_ok());
    config.baud_rate = 0;
    assert!(config.validate().is_err());
}

#[test]
fn baud_rate_parser_accepts_common_and_custom_values() {
    assert_eq!(parse_baud_rate("115200"), Ok(115_200));
    assert_eq!(parse_baud_rate(" 1234567 "), Ok(1_234_567));
    assert_eq!(parse_baud_rate("4000000"), Ok(MAX_BAUD_RATE));
}

#[test]
fn baud_rate_parser_rejects_invalid_values() {
    assert_eq!(parse_baud_rate(""), Err("请输入波特率"));
    assert_eq!(parse_baud_rate("115.2k"), Err("波特率只能包含数字"));
    assert!(parse_baud_rate("0").is_err());
    assert!(parse_baud_rate("4000001").is_err());
    assert!(parse_baud_rate("999999999999").is_err());
}
