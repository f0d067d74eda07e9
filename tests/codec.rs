use yggdrasil_bridge::context::decode_context;
use yggdrasil_bridge::messages::{
    encode_toggle, encode_toggle_list, EvaluatedToggle, EvaluatedToggleList, EvaluatedVariant,
    VariantPayload,
};
use yggdrasil_bridge::wire::{put_varint, read_field, read_varint};

fn sample_toggle(name: &str, enabled: bool) -> EvaluatedToggle {
    EvaluatedToggle {
        name: name.to_string(),
        enabled,
        impression_data: false,
        variant: Some(EvaluatedVariant {
            name: "disabled".to_string(),
            enabled: false,
            feature_enabled: enabled,
            old_feature_enabled: enabled,
            payload: None,
        }),
    }
}

#[test]
fn varint_of_small_and_large_values() {
    let mut buf = Vec::new();
    put_varint(&mut buf, 1);
    assert_eq!(buf, vec![0x01]);
    let mut buf = Vec::new();
    put_varint(&mut buf, 300);
    assert_eq!(buf, vec![0xAC, 0x02]);
    let mut buf = Vec::new();
    put_varint(&mut buf, u64::MAX);
    assert_eq!(buf, vec![0xFF, 0xFF, 0xFF, 0xFF, 0xFF, 0xFF, 0xFF, 0xFF, 0xFF, 0x01]);
}

#[test]
fn varint_reads_back() {
    assert_eq!(read_varint(&[0xAC, 0x02, 0x07], 0), Some((300, 2)));
    assert_eq!(read_varint(&[0x07, 0xAC, 0x02], 1), Some((300, 3)));
    let mut buf = Vec::new();
    put_varint(&mut buf, u64::MAX);
    assert_eq!(read_varint(&buf, 0), Some((u64::MAX, 10)));
}

#[test]
fn varint_rejects_truncated_overlong_and_overflowing() {
    assert_eq!(read_varint(&[0x80, 0x80], 0), None);
    assert_eq!(read_varint(&[], 0), None);
    assert_eq!(read_varint(&[0x80; 11], 0), None);
    let mut too_big = vec![0xFF; 9];
    too_big.push(0x02);
    assert_eq!(read_varint(&too_big, 0), None);
}

#[test]
fn fields_are_located() {
    // field 1, length-delimited, two bytes
    assert_eq!(read_field(&[0x0A, 0x02, 0x41, 0x42], 0), Some((1, 2, 2, 4)));
    // field 2, varint
    assert_eq!(read_field(&[0x10, 0x96, 0x01], 0), Some((2, 0, 1, 3)));
    // field 3, fixed 32-bit and fixed 64-bit
    assert_eq!(read_field(&[0x1D, 1, 2, 3, 4], 0), Some((3, 5, 1, 5)));
    assert_eq!(read_field(&[0x19, 1, 2, 3, 4, 5, 6, 7, 8], 0), Some((3, 1, 1, 9)));
    // field number zero, a group, and a payload past the end
    assert_eq!(read_field(&[0x02, 0x00], 0), None);
    assert_eq!(read_field(&[0x0B], 0), None);
    assert_eq!(read_field(&[0x0A, 0x05, 0x41], 0), None);
}

#[test]
fn toggle_encodes_to_expected_bytes() {
    let bytes = encode_toggle(&sample_toggle("A", true));
    let mut expected = vec![0x0A, 0x01, b'A', 0x10, 0x01, 0x22, 0x0E, 0x0A, 0x08];
    expected.extend_from_slice(b"disabled");
    expected.extend_from_slice(&[0x18, 0x01, 0x20, 0x01]);
    assert_eq!(bytes, expected);
}

#[test]
fn default_fields_are_left_out() {
    let t = EvaluatedToggle { name: String::new(), enabled: false, impression_data: false, variant: None };
    assert!(encode_toggle(&t).is_empty());
}

#[test]
fn payload_and_impression_data_are_encoded() {
    let t = EvaluatedToggle {
        name: "p".to_string(),
        enabled: false,
        impression_data: true,
        variant: Some(EvaluatedVariant {
            name: "v".to_string(),
            enabled: true,
            feature_enabled: false,
            old_feature_enabled: false,
            payload: Some(VariantPayload { payload_type: "string".to_string(), value: "x".to_string() }),
        }),
    };
    let mut expected = vec![0x0A, 0x01, b'p', 0x18, 0x01, 0x22, 0x12, 0x0A, 0x01, b'v', 0x10, 0x01, 0x2A, 0x0B, 0x0A, 0x06];
    expected.extend_from_slice(b"string");
    expected.extend_from_slice(&[0x12, 0x01, b'x']);
    assert_eq!(encode_toggle(&t), expected);
}

#[test]
fn toggle_list_repeats_field_one() {
    let list = EvaluatedToggleList { toggles: vec![sample_toggle("A", true), sample_toggle("B", false)] };
    let bytes = encode_toggle_list(&list);
    let a = encode_toggle(&sample_toggle("A", true));
    let b = encode_toggle(&sample_toggle("B", false));
    let mut expected = vec![0x0A, a.len() as u8];
    expected.extend_from_slice(&a);
    expected.push(0x0A);
    expected.push(b.len() as u8);
    expected.extend_from_slice(&b);
    assert_eq!(bytes, expected);
    assert!(encode_toggle_list(&EvaluatedToggleList { toggles: vec![] }).is_empty());
}

#[test]
fn context_decodes_fields_and_properties() {
    let mut bytes = vec![0x0A, 0x02, b'u', b'1'];
    bytes.extend_from_slice(&[0x22, 0x03, b'a', b'p', b'p']);
    bytes.extend_from_slice(&[0x3A, 0x06, 0x0A, 0x01, b'k', 0x12, 0x01, b'v']);
    bytes.extend_from_slice(&[0x48, 0x05]);
    bytes.extend_from_slice(&[0x0A, 0x02, b'u', b'2']);
    let c = decode_context(&bytes).unwrap();
    assert_eq!(c.user_id, Some("u2".to_string()));
    assert_eq!(c.app_name, Some("app".to_string()));
    assert_eq!(c.session_id, None);
    assert_eq!(c.environment, None);
    assert_eq!(c.properties, vec![("k".to_string(), "v".to_string())]);
}

#[test]
fn empty_context_has_no_fields() {
    let c = decode_context(&[]).unwrap();
    assert_eq!(c.user_id, None);
    assert_eq!(c.remote_address, None);
    assert!(c.properties.is_empty());
}

#[test]
fn malformed_context_is_rejected() {
    assert!(decode_context(&[0x0A, 0x05, b'u']).is_none());
    assert!(decode_context(&[0x08, 0x01]).is_none());
    assert!(decode_context(&[0x0A, 0x01, 0xFF]).is_none());
    assert!(decode_context(&[0x3A, 0x02, 0x08, 0x01]).is_none());
    assert!(decode_context(&[0x0A]).is_none());
}

#[test]
fn groups_are_skipped_to_their_end() {
    // field 9 opens a group holding a varint and a nested group of field 2
    let group = [0x4B, 0x48, 0x05, 0x13, 0x14, 0x4C];
    assert_eq!(read_field(&group, 0), Some((9, 3, 1, 6)));
    // a stray end-group key, and an end-group key of another field
    assert_eq!(read_field(&[0x4C], 0), None);
    assert_eq!(read_field(&[0x4B, 0x54], 0), None);
    assert_eq!(read_field(&[0x4B, 0x48, 0x05], 0), None);
}

#[test]
fn unknown_groups_in_a_context_are_skipped() {
    let mut bytes = vec![0x4B, 0x48, 0x05, 0x4C];
    bytes.extend_from_slice(&[0x0A, 0x02, b'u', b'1']);
    let c = decode_context(&bytes).unwrap();
    assert_eq!(c.user_id, Some("u1".to_string()));
    // a group where a known field stands is malformed
    assert!(decode_context(&[0x0B, 0x0C]).is_none());
}
