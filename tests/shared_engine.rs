use std::sync::Mutex;

use unleash_yggdrasil::EngineState;
use yggdrasil_bridge::dispatch::{resolve_all, take_state};
use yggdrasil_bridge::lock::recover_lock;
use yggdrasil_bridge::wire::read_field;

const ONLY_A: &str = r#"{"version":2,"features":[{"name":"A","enabled":true,"strategies":[{"name":"default","parameters":{}}]}]}"#;
const A_AND_B: &str = r#"{"version":2,"features":[{"name":"A","enabled":true,"strategies":[{"name":"default","parameters":{}}]},{"name":"B","enabled":true,"strategies":[{"name":"default","parameters":{}}]}]}"#;
const OK_ENVELOPE: &str = r#"{"status_code":1,"value":null,"error_message":null}"#;

/// The names of the toggles in an encoded toggle list.
fn toggle_names(bytes: &[u8]) -> Vec<String> {
    let mut names = Vec::new();
    let mut pos = 0;
    while pos < bytes.len() {
        let (field, _, start, end) = read_field(bytes, pos).unwrap();
        assert_eq!(field, 1);
        let toggle = &bytes[start..end];
        let (name_field, _, s, e) = read_field(toggle, 0).unwrap();
        assert_eq!(name_field, 1);
        names.push(String::from_utf8(toggle[s..e].to_vec()).unwrap());
        pos = end;
    }
    names.sort();
    names
}

#[test]
fn each_update_replaces_the_last_one() {
    let engine = Mutex::new(EngineState::default());
    for j in 0..6usize {
        let (update, expected) = if j % 2 == 0 {
            (A_AND_B, vec!["A".to_string(), "B".to_string()])
        } else {
            (ONLY_A, vec!["A".to_string()])
        };
        assert_eq!(take_state(&mut recover_lock(&engine), update), OK_ENVELOPE);
        let bytes = resolve_all(&recover_lock(&engine), &[], true).ok().unwrap();
        assert_eq!(toggle_names(&bytes), expected);
    }
}
