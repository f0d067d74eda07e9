use unleash_types::client_features::Payload;
use unleash_yggdrasil::{EngineState, ExtendedVariantDef, ResolvedToggle};
use yggdrasil_bridge::dispatch::{
    apply_state, encode_resolution, encode_resolutions, evaluated_toggle, into_list, resolve,
    resolve_all, take_state, translate_context,
};
use yggdrasil_bridge::context::WireContext;
use yggdrasil_bridge::envelope::{status_envelope, Response, ResponseCode};
use yggdrasil_bridge::error::BridgeError;
use yggdrasil_bridge::messages::encode_toggle;

const ENABLE_A: &str = r#"{"version":2,"features":[{"name":"A","enabled":true,"strategies":[{"name":"default","parameters":{}}]}]}"#;
const WITHOUT_A: &str = r#"{"version":2,"features":[{"name":"B","enabled":true,"strategies":[{"name":"default","parameters":{}}]}]}"#;
const WITH_BROKEN_SEGMENT: &str = r#"{"version":2,"features":[{"name":"A","enabled":true,"strategies":[{"name":"default","parameters":{}}]},{"name":"C","enabled":true,"strategies":[{"name":"default","parameters":{},"segments":[99]}]}]}"#;

const OK_ENVELOPE: &str = r#"{"status_code":1,"value":null,"error_message":null}"#;

fn resolved(enabled: bool, payload: Option<Payload>) -> ResolvedToggle {
    ResolvedToggle {
        enabled,
        impression_data: true,
        project: "default".to_string(),
        variant: ExtendedVariantDef {
            name: "blue".to_string(),
            payload,
            enabled: true,
            feature_enabled: enabled,
        },
    }
}

fn enabled_a_bytes() -> Vec<u8> {
    let mut expected = vec![0x0A, 0x01, b'A', 0x10, 0x01, 0x22, 0x0E, 0x0A, 0x08];
    expected.extend_from_slice(b"disabled");
    expected.extend_from_slice(&[0x18, 0x01, 0x20, 0x01]);
    expected
}

#[test]
fn success_envelope_text() {
    assert_eq!(status_envelope(Ok(())), OK_ENVELOPE);
}

#[test]
fn failure_envelope_quotes_the_message() {
    let text = status_envelope(Err(BridgeError::InvalidJson("bad \"x\"".to_string())));
    assert_eq!(text, r#"{"status_code":-2,"value":null,"error_message":"Failed to parse JSON: bad \"x\""}"#);
    let text = status_envelope(Err(BridgeError::NullError));
    assert_eq!(
        text,
        r#"{"status_code":-2,"value":null,"error_message":"Null error detected, this is a serious issue and you should report this as a bug."}"#
    );
}

#[test]
fn not_found_and_valued_envelopes() {
    assert_eq!(
        Response::from_result(Ok(None)).to_json(),
        r#"{"status_code":-1,"value":null,"error_message":null}"#
    );
    assert_eq!(
        Response::from_result(Ok(Some("true".to_string()))).to_json(),
        r#"{"status_code":1,"value":true,"error_message":null}"#
    );
}

#[test]
fn response_codes_are_numbered() {
    assert_eq!(ResponseCode::Failure.code(), -2);
    assert_eq!(ResponseCode::NotFound.code(), -1);
    assert_eq!(ResponseCode::Success.code(), 1);
}

#[test]
fn error_messages() {
    assert_eq!(
        BridgeError::Utf8Error.message(),
        "Detected a non UTF-8 string in the input, this is a serious issue and you should report this as a bug."
    );
    assert_eq!(BridgeError::InvalidProto("Invalid Context".to_string()).message(), "Invalid Proto Buf input detected: Invalid Context");
}

#[test]
fn enable_then_remove_toggle() {
    let mut engine = EngineState::default();
    assert_eq!(take_state(&mut engine, ENABLE_A), OK_ENVELOPE);
    let bytes = resolve(&engine, "A", &[]).ok().unwrap();
    assert_eq!(bytes, enabled_a_bytes());
    assert_eq!(take_state(&mut engine, WITHOUT_A), OK_ENVELOPE);
    assert!(matches!(resolve(&engine, "A", &[]), Err(BridgeError::NullError)));
}

#[test]
fn malformed_update_leaves_state_alone() {
    let mut engine = EngineState::default();
    assert_eq!(take_state(&mut engine, ENABLE_A), OK_ENVELOPE);
    let text = take_state(&mut engine, "{not json");
    assert!(text.starts_with(r#"{"status_code":-2,"value":null,"error_message":"Failed to parse JSON: "#));
    assert_eq!(resolve(&engine, "A", &[]).ok().unwrap(), enabled_a_bytes());
    assert!(matches!(apply_state(&mut engine, ""), Err(BridgeError::InvalidJson(_))));
}

#[test]
fn warnings_still_apply_the_update() {
    let mut engine = EngineState::default();
    let result = apply_state(&mut engine, WITH_BROKEN_SEGMENT);
    assert!(matches!(result, Err(BridgeError::PartialUpdate(_))));
    assert_eq!(resolve(&engine, "A", &[]).ok().unwrap(), enabled_a_bytes());
    let text = take_state(&mut engine, WITH_BROKEN_SEGMENT);
    assert!(text.starts_with(r#"{"status_code":-2,"value":null,"error_message":"Engine state was updated but warnings were reported"#));
}

#[test]
fn resolve_rejects_bad_context() {
    let mut engine = EngineState::default();
    take_state(&mut engine, ENABLE_A);
    assert!(matches!(resolve(&engine, "A", &[0x0A, 0x09]), Err(BridgeError::InvalidProto(_))));
    assert!(matches!(resolve_all(&engine, &[0x0A, 0x09], true), Err(BridgeError::InvalidProto(_))));
}

#[test]
fn empty_engine_resolves_nothing() {
    let engine = EngineState::default();
    assert!(matches!(resolve(&engine, "A", &[]), Err(BridgeError::NullError)));
    assert!(matches!(resolve_all(&engine, &[], true), Err(BridgeError::NullError)));
}

#[test]
fn resolve_all_lists_every_toggle() {
    let mut engine = EngineState::default();
    take_state(&mut engine, ENABLE_A);
    let bytes = resolve_all(&engine, &[], true).ok().unwrap();
    let a = enabled_a_bytes();
    let mut expected = vec![0x0A, a.len() as u8];
    expected.extend_from_slice(&a);
    assert_eq!(bytes, expected);
}

#[test]
fn enabled_only_list_drops_disabled_toggles() {
    let entries = || vec![("on".to_string(), resolved(true, None)), ("off".to_string(), resolved(false, None))];
    let all = into_list(entries(), true);
    let enabled = into_list(entries(), false);
    assert_eq!(all.toggles.len(), 2);
    assert_eq!(enabled.toggles.len(), 1);
    assert_eq!(enabled.toggles[0].name, "on");
    assert!(all.toggles.iter().any(|t| t.name == "off" && !t.enabled));
    let full = encode_resolutions(Some(entries()), true).ok().unwrap();
    let only = encode_resolutions(Some(entries()), false).ok().unwrap();
    assert!(only.len() < full.len());
    assert!(matches!(encode_resolutions(None, true), Err(BridgeError::NullError)));
}

#[test]
fn evaluated_toggle_copies_the_resolution() {
    let payload = Payload { payload_type: "json".to_string(), value: "{}".to_string() };
    let t = evaluated_toggle("x".to_string(), resolved(true, Some(payload)));
    assert_eq!(t.name, "x");
    assert!(t.enabled);
    assert!(t.impression_data);
    let v = t.variant.as_ref().unwrap();
    assert_eq!(v.name, "blue");
    assert!(v.enabled);
    assert!(v.feature_enabled);
    assert!(v.old_feature_enabled);
    let p = v.payload.as_ref().unwrap();
    assert_eq!(p.payload_type, "json");
    assert_eq!(p.value, "{}");
}

#[test]
fn single_resolution_encodes_or_reports_null() {
    let bytes = encode_resolution("x", Some(resolved(false, None))).ok().unwrap();
    let expected = encode_toggle(&evaluated_toggle("x".to_string(), resolved(false, None)));
    assert_eq!(bytes, expected);
    assert_eq!(&bytes[..3], &[0x0A, 0x01, b'x']);
    assert!(matches!(encode_resolution("x", None), Err(BridgeError::NullError)));
}

#[test]
fn context_translation_keeps_fields_and_last_property() {
    let wire = WireContext {
        user_id: Some("u".to_string()),
        session_id: None,
        environment: Some("prod".to_string()),
        app_name: None,
        current_time: None,
        remote_address: Some("10.0.0.1".to_string()),
        properties: vec![("k".to_string(), "1".to_string()), ("k".to_string(), "2".to_string())],
    };
    let c = translate_context(wire);
    assert_eq!(c.user_id.as_deref(), Some("u"));
    assert_eq!(c.environment.as_deref(), Some("prod"));
    assert_eq!(c.remote_address.as_deref(), Some("10.0.0.1"));
    assert_eq!(c.session_id, None);
    let props = c.properties.unwrap();
    assert_eq!(props.len(), 1);
    assert_eq!(props.get("k").map(|s| s.as_str()), Some("2"));
}

#[test]
fn control_characters_are_escaped() {
    let text = status_envelope(Err(BridgeError::InvalidJson("a\nb\t\u{1}\\".to_string())));
    assert_eq!(
        text,
        r#"{"status_code":-2,"value":null,"error_message":"Failed to parse JSON: a\nb\t\u0001\\"}"#
    );
}
