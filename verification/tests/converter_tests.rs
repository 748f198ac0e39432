use model_manager::converter::{ConverterConfig, JsonConverterConfig, SerdeJsonConverter};
use model_manager::core_value::SerdeCoreValue;
use model_manager::errors::ModelError;
use model_manager::factories::{ConverterFactory, DefaultConverterFactory};
use model_manager::traits::CoreValue;

fn invalid(e: ModelError) -> String {
    match e {
        ModelError::InvalidData(m) => m,
        other => panic!("expected invalid data, got {:?}", other),
    }
}

fn small_config(max: usize) -> JsonConverterConfig {
    let mut c = JsonConverterConfig::default();
    c.base.max_direct_conversion_size = max;
    c
}

#[test]
fn default_settings() {
    let c = ConverterConfig::default();
    assert_eq!(c.max_direct_conversion_size, 10 * 1024 * 1024);
    assert!(c.strict_validation);
    assert!(!c.pretty_output);
    assert_eq!(c.encoding, "UTF-8");
    assert_eq!(c.conversion_timeout_ms, 30_000);
    let j = JsonConverterConfig::default();
    assert!(!j.allow_comments);
    assert!(!j.allow_trailing_commas);
    assert_eq!(j.indent_size, 2);
    let conv = SerdeJsonConverter::new();
    assert!(!conv.pretty_output());
    assert_eq!(conv.config().base.max_direct_conversion_size, 10 * 1024 * 1024);
}

#[test]
fn config_clone_keeps_every_setting() {
    let mut c = JsonConverterConfig::default();
    c.base.encoding = "latin1".to_string();
    c.indent_size = 4;
    let d = c.clone();
    assert_eq!(d.base.encoding, "latin1");
    assert_eq!(d.indent_size, 4);
}

#[test]
fn size_limit_is_checked_in_bytes() {
    let conv = SerdeJsonConverter::new_with_config(small_config(4));
    assert!(conv.check_input_size("1234").is_ok());
    assert_eq!(invalid(conv.check_input_size("12345").err().unwrap()), "JSON too large: 5 bytes > 4 bytes");
    assert_eq!(invalid(conv.check_input_size("ñññ").err().unwrap()), "JSON too large: 6 bytes > 4 bytes");
}

#[test]
fn from_external_reports_size_before_parse() {
    let conv = SerdeJsonConverter::new_with_config(small_config(2));
    let r = conv.from_external("\"abc\"", Err("bad".to_string()));
    assert_eq!(invalid(r.err().unwrap()), "JSON too large: 5 bytes > 2 bytes");
}

#[test]
fn from_external_passes_parsed_values_and_errors() {
    let conv = SerdeJsonConverter::new();
    let v = conv.from_external("true", Ok(SerdeCoreValue::from_bool(true))).unwrap();
    assert_eq!(v.as_bool(), Some(true));
    let r = conv.from_external("tru", Err("expected value at line 1 column 1".to_string()));
    assert_eq!(invalid(r.err().unwrap()), "JSON parse error: expected value at line 1 column 1");
}

#[test]
fn batch_stops_at_first_failure() {
    let conv = SerdeJsonConverter::new();
    let all = conv
        .from_external_batch(vec![Ok(SerdeCoreValue::from_str("a")), Ok(SerdeCoreValue::from_bool(false))])
        .unwrap();
    assert_eq!(all.len(), 2);
    assert_eq!(all[0].as_str(), Some("a".to_string()));
    let r = conv.from_external_batch(vec![
        Ok(SerdeCoreValue::from_str("a")),
        Err("first".to_string()),
        Err("second".to_string()),
    ]);
    assert_eq!(invalid(r.err().unwrap()), "JSON parse error: first");
    assert!(conv.from_external_batch(Vec::new()).unwrap().is_empty());
}

#[test]
fn to_external_maps_printer_errors() {
    let conv = SerdeJsonConverter::new();
    assert_eq!(conv.to_external(Ok("{}".to_string())).unwrap(), "{}");
    assert_eq!(invalid(conv.to_external(Err("boom".to_string())).err().unwrap()), "JSON serialize error: boom");
}

#[test]
fn converter_factory() {
    let c = DefaultConverterFactory::create_json_converter();
    assert_eq!(c.config().indent_size, 2);
    let d = DefaultConverterFactory::create_json_converter_with_config(small_config(7));
    assert_eq!(d.config().base.max_direct_conversion_size, 7);
}

#[test]
fn printed_batch_stops_at_first_failure() {
    let conv = SerdeJsonConverter::new();
    let ok = conv.to_external_batch(vec![Ok("1".to_string()), Ok("[]".to_string())]).unwrap();
    assert_eq!(ok, vec!["1", "[]"]);
    let r = conv.to_external_batch(vec![Ok("1".to_string()), Err("x".to_string()), Err("y".to_string())]);
    assert_eq!(invalid(r.err().unwrap()), "JSON serialize error: x");
}
