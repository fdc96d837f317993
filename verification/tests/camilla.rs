use heq_core::backend::camilla::{too_old_status, version_supported, MIN_MAJOR};
use heq_core::backend::camilla::{is_no_connection, not_connected_status};
use heq_core::backend::camilla::{
    build, check_set_config_reply, config_text_from_reply, result_value, splice,
    version_from_reply, DEFAULT_URL,
};
use heq_core::backend::json::{as_str, get, insert, json_num, json_str, JsonValue};
use heq_core::backend::yaml::to_yaml;
use heq_core::backend::BackendError;
use heq_core::model::band::{BandText, ChannelTarget, FilterKind};

fn band(kind: FilterKind, enabled: bool, channel: ChannelTarget, f: &str, g: &str, q: &str, qs: &[&str]) -> BandText {
    BandText {
        kind,
        enabled,
        channel,
        freq: f.to_string(),
        gain: g.to_string(),
        q: q.to_string(),
        cut_qs: qs.iter().map(|s| s.to_string()).collect(),
    }
}

fn obj(entries: Vec<(&str, JsonValue)>) -> JsonValue {
    JsonValue::Object(entries.into_iter().map(|(k, v)| (k.to_string(), v)).collect())
}

fn protocol_text(e: BackendError) -> String {
    match e {
        BackendError::Protocol(m) => m,
        other => panic!("expected a protocol error, got {:?}", other),
    }
}

#[test]
fn default_url() {
    assert_eq!(DEFAULT_URL, "ws://127.0.0.1:1234");
}

#[test]
fn splice_builds_filters_and_pipeline_into_the_config() {
    let bands = vec![band(FilterKind::Bell, true, ChannelTarget::Both, "1000.0", "-3.0", "1.41", &[])];
    let built = build(false, Some("-3.5"), &bands);
    let mut cfg = obj(vec![("devices", obj(vec![("samplerate", json_num("48000"))]))]);
    splice(&mut cfg, built);
    assert_eq!(
        to_yaml(&cfg),
        "devices:\n  samplerate: 48000\n\
         filters:\n  heq_preamp:\n    parameters:\n      gain: -3.5\n      inverted: false\n      mute: false\n    type: \"Gain\"\n\
         \x20 heq_1:\n    parameters:\n      freq: 1000.0\n      gain: -3.0\n      q: 1.41\n      type: \"Peaking\"\n    type: \"Biquad\"\n\
         pipeline:\n  - channels:\n      - 0\n    names:\n      - \"heq_preamp\"\n      - \"heq_1\"\n    type: \"Filter\"\n\
         \x20 - channels:\n      - 1\n    names:\n      - \"heq_preamp\"\n      - \"heq_1\"\n    type: \"Filter\"\n"
    );
}

#[test]
fn sides_and_disabled_bands() {
    let bands = vec![
        band(FilterKind::Bell, false, ChannelTarget::Both, "100", "1", "1", &[]),
        band(FilterKind::LowCut, true, ChannelTarget::Left, "30", "0", "0.7", &["0.5412", "1.3066"]),
        band(FilterKind::Notch, true, ChannelTarget::Right, "50", "0", "30", &[]),
    ];
    let built = build(false, None, &bands);
    let names: Vec<&str> = built.filters.iter().map(|(k, _)| k.as_str()).collect();
    assert_eq!(names, vec!["heq_2", "heq_2_2", "heq_3"]);
    assert_eq!(built.pipeline.len(), 2);
    let mut cfg = JsonValue::Null;
    splice(&mut cfg, built);
    assert_eq!(
        to_yaml(&cfg),
        "filters:\n\
         \x20 heq_2:\n    parameters:\n      freq: 30\n      q: 0.5412\n      type: \"Highpass\"\n    type: \"Biquad\"\n\
         \x20 heq_2_2:\n    parameters:\n      freq: 30\n      q: 1.3066\n      type: \"Highpass\"\n    type: \"Biquad\"\n\
         \x20 heq_3:\n    parameters:\n      freq: 50\n      q: 30\n      type: \"Notch\"\n    type: \"Biquad\"\n\
         pipeline:\n  - channels:\n      - 0\n    names:\n      - \"heq_2\"\n      - \"heq_2_2\"\n    type: \"Filter\"\n\
         \x20 - channels:\n      - 1\n    names:\n      - \"heq_3\"\n    type: \"Filter\"\n"
    );
}

#[test]
fn one_sided_bands_leave_the_other_channel_out() {
    let bands = vec![band(FilterKind::HighShelf, true, ChannelTarget::Right, "8000", "2", "0.7", &[])];
    let built = build(false, None, &bands);
    assert_eq!(built.pipeline.len(), 1);
    let yaml = to_yaml(&built.pipeline[0]);
    assert_eq!(yaml, "channels:\n  - 1\nnames:\n  - \"heq_1\"\ntype: \"Filter\"\n");
}

#[test]
fn bypass_builds_nothing() {
    let bands = vec![band(FilterKind::Bell, true, ChannelTarget::Both, "1000", "3", "1", &[])];
    let built = build(true, Some("-3"), &bands);
    assert!(built.filters.is_empty());
    assert!(built.pipeline.is_empty());
    let empty = build(false, None, &Vec::new());
    assert!(empty.filters.is_empty());
    assert!(empty.pipeline.is_empty());
}

#[test]
fn splice_replaces_heq_sections_in_place() {
    let mut cfg = obj(vec![
        ("filters", obj(vec![("old", JsonValue::Null)])),
        ("mixers", obj(vec![])),
        ("pipeline", JsonValue::Array(vec![json_num("1")])),
    ]);
    splice(&mut cfg, build(true, None, &Vec::new()));
    assert_eq!(to_yaml(&cfg), "filters: {}\nmixers: {}\npipeline: []\n");
}

#[test]
fn splice_adds_missing_sections_in_key_order() {
    let mut cfg = obj(vec![("devices", json_num("1")), ("mixers", obj(vec![]))]);
    splice(&mut cfg, build(true, None, &Vec::new()));
    assert_eq!(to_yaml(&cfg), "devices: 1\nfilters: {}\nmixers: {}\npipeline: []\n");
    let mut m = vec![("b".to_string(), JsonValue::Null)];
    insert(&mut m, "a", json_num("1"));
    insert(&mut m, "c", json_num("3"));
    insert(&mut m, "b", json_num("2"));
    let keys: Vec<&str> = m.iter().map(|(k, _)| k.as_str()).collect();
    assert_eq!(keys, vec!["a", "b", "c"]);
    assert_eq!(to_yaml(&JsonValue::Object(m)), "a: 1\nb: 2\nc: 3\n");
}

#[test]
fn yaml_scalars_and_quoting() {
    let v = obj(vec![
        ("plain-key.1", json_str("a \"quoted\"\\ line\nnext")),
        ("needs quote", JsonValue::Bool(true)),
        ("", JsonValue::Null),
        ("list", JsonValue::Array(vec![json_num("1"), JsonValue::Array(vec![]), obj(vec![("a", json_num("2"))])])),
    ]);
    assert_eq!(
        to_yaml(&v),
        "plain-key.1: \"a \\\"quoted\\\"\\\\ line\\nnext\"\n\
         \"needs quote\": true\n\
         \"\": null\n\
         list:\n  - 1\n  - []\n  - a: 2\n"
    );
    assert_eq!(to_yaml(&json_str("x")), "\"x\"\n");
    assert_eq!(to_yaml(&obj(vec![])), "{}\n");
}

#[test]
fn json_lookups() {
    let mut m: Vec<(String, JsonValue)> = Vec::new();
    insert(&mut m, "a", json_num("1"));
    insert(&mut m, "b", json_str("two"));
    insert(&mut m, "a", json_str("one"));
    assert_eq!(m.len(), 2);
    let v = JsonValue::Object(m);
    assert_eq!(get(&v, "a").and_then(as_str).map(|s| s.as_str()), Some("one"));
    assert_eq!(get(&v, "b").and_then(as_str).map(|s| s.as_str()), Some("two"));
    assert!(get(&v, "c").is_none());
    assert!(get(&JsonValue::Null, "a").is_none());
}

#[test]
fn version_reply() {
    let ok = obj(vec![("GetVersion", obj(vec![("result", json_str("Ok")), ("value", json_str("3.0.1"))]))]);
    assert_eq!(version_from_reply(&ok).unwrap(), "3.0.1");
}

#[test]
fn reply_errors() {
    let refused = obj(vec![("GetVersion", obj(vec![("result", json_str("Error"))]))]);
    assert_eq!(protocol_text(version_from_reply(&refused).unwrap_err()), "GetVersion: Error");

    let missing = obj(vec![]);
    assert_eq!(protocol_text(version_from_reply(&missing).unwrap_err()), "no reply to GetVersion");

    let malformed = obj(vec![("GetVersion", obj(vec![]))]);
    assert_eq!(protocol_text(version_from_reply(&malformed).unwrap_err()), "GetVersion: malformed reply");

    let no_value = obj(vec![("GetVersion", obj(vec![("result", json_str("Ok"))]))]);
    assert_eq!(
        protocol_text(version_from_reply(&no_value).unwrap_err()),
        "GetVersion returned no version"
    );
}

#[test]
fn config_replies() {
    let ok = obj(vec![("GetConfigJson", obj(vec![("result", json_str("Ok")), ("value", json_str("{}"))]))]);
    assert_eq!(config_text_from_reply(&ok).unwrap(), "{}");
    let bad = obj(vec![("GetConfigJson", obj(vec![("result", json_str("Ok")), ("value", json_num("1"))]))]);
    assert_eq!(
        protocol_text(config_text_from_reply(&bad).unwrap_err()),
        "GetConfigJson returned no config"
    );
    let set = obj(vec![("SetConfigJson", obj(vec![("result", json_str("Ok"))]))]);
    assert!(check_set_config_reply(&set).is_ok());
    let refused = obj(vec![("SetConfigJson", obj(vec![("result", json_str("Invalid"))]))]);
    assert_eq!(protocol_text(check_set_config_reply(&refused).unwrap_err()), "SetConfigJson: Invalid");
}

#[test]
fn result_values() {
    let reply = obj(vec![("Cmd", obj(vec![("result", json_str("Ok")), ("value", json_num("5"))]))]);
    let v = result_value(&reply, "Cmd").unwrap();
    assert_eq!(to_yaml(&v), "5\n");
    let reply = obj(vec![("Cmd", obj(vec![("result", json_str("Ok"))]))]);
    assert_eq!(to_yaml(&result_value(&reply, "Cmd").unwrap()), "null\n");
}

use heq_core::backend::camilla::{
    after_retry, applied_status, not_written_status, refused_status, unreachable_status,
};

#[test]
fn camilla_statuses() {
    let s = unreachable_status("refused");
    assert!(!s.connected);
    assert_eq!(s.message, "CamillaDSP unreachable (refused)");
    let s = refused_status("bad yaml");
    assert!(!s.connected);
    assert_eq!(s.message, "CamillaDSP refused the config (bad yaml)");
    let s = applied_status(DEFAULT_URL);
    assert!(s.connected);
    assert_eq!(s.message, "applied to ws://127.0.0.1:1234");
    let s = not_written_status("/etc/camilla.yml", "denied");
    assert!(s.connected);
    assert_eq!(s.message, "applied, but /etc/camilla.yml not written: denied");
}

#[test]
fn a_retry_keeps_the_first_error() {
    assert_eq!(after_retry::<u32, &str>("first", Ok(5)), Ok(5));
    assert_eq!(after_retry::<u32, &str>("first", Err("second")), Err("first"));
}

use heq_core::backend::camilla::{
    command_request, config_from_reply_text, reread, set_config_reply_text, set_config_request,
    version_from_reply_text,
};

#[test]
fn requests_on_the_wire() {
    assert_eq!(command_request("GetVersion"), "\"GetVersion\"");
    let cfg = obj(vec![("b", json_num("1")), ("a", json_str("x"))]);
    assert_eq!(set_config_request(&cfg), "{\"SetConfigJson\":\"{\\\"a\\\":\\\"x\\\",\\\"b\\\":1}\"}");
}

#[test]
fn replies_read_from_text() {
    assert_eq!(
        version_from_reply_text("{\"GetVersion\":{\"result\":\"Ok\",\"value\":\"3.0.1\"}}").unwrap(),
        "3.0.1"
    );
    assert_eq!(
        protocol_text(version_from_reply_text("{\"GetVersion\":{\"result\":\"Error\"}}").unwrap_err()),
        "GetVersion: Error"
    );
    assert!(matches!(version_from_reply_text("not json"), Err(BackendError::Protocol(_))));

    let reply = "{\"GetConfigJson\":{\"result\":\"Ok\",\"value\":\"{\\\"devices\\\":{\\\"samplerate\\\":48000}}\"}}";
    let cfg = config_from_reply_text(reply).unwrap();
    assert_eq!(to_yaml(&cfg), "devices:\n  samplerate: 48000\n");
    let bad = "{\"GetConfigJson\":{\"result\":\"Ok\",\"value\":\"{oops\"}}";
    assert!(matches!(config_from_reply_text(bad), Err(BackendError::Protocol(_))));

    assert!(set_config_reply_text("{\"SetConfigJson\":{\"result\":\"Ok\"}}").is_ok());
    assert_eq!(
        protocol_text(set_config_reply_text("{\"SetConfigJson\":{\"result\":\"Invalid\"}}").unwrap_err()),
        "SetConfigJson: Invalid"
    );
}

#[test]
fn reread_sorts_keys_as_camilla_holds_them() {
    let cfg = obj(vec![("pipeline", JsonValue::Array(vec![])), ("filters", obj(vec![])), ("devices", json_num("1"))]);
    let sorted = reread(&cfg).unwrap();
    assert_eq!(to_yaml(&sorted), "devices: 1\nfilters: {}\npipeline: []\n");
}

#[test]
fn versions_older_than_three_are_refused() {
    assert_eq!(MIN_MAJOR, 3);
    assert!(version_supported("3.0.1"));
    assert!(version_supported("3"));
    assert!(version_supported("10.2.0"));
    assert!(version_supported("12345678901234567890.0"));
    assert!(!version_supported("2.0.3"));
    assert!(!version_supported("0.6"));
    assert!(!version_supported("v3.0"));
    assert!(!version_supported(""));
    let s = too_old_status("2.0.3");
    assert!(!s.connected);
    assert_eq!(s.message, "CamillaDSP 2.0.3 is too old; heq needs version 3 or newer");
}

#[test]
fn no_connection_is_reported_not_failed() {
    assert!(is_no_connection(&BackendError::NotAvailable("refused".to_string())));
    assert!(!is_no_connection(&BackendError::Protocol("bad".to_string())));
    let s = not_connected_status("refused", None);
    assert!(!s.connected);
    assert_eq!(s.message, "not connected (refused)");
    let s = not_connected_status("refused", Some("/etc/camilladsp.yml"));
    assert_eq!(s.message, "not connected (refused); config written to /etc/camilladsp.yml");
}
