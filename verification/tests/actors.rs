//! The echo actors.

use prism::actors::{echo_actors, registration};

#[test]
fn echo_sources_match_carrier_shapes() {
    let list = echo_actors();
    let has = |name: &str, lang: &str, needle: &str| {
        list.iter().any(|e| e.name == name && e.language == lang && e.source.contains(needle))
    };
    assert!(has("echo_steel", "steel", "(define (echo_steel"));
    assert!(has("echo_python", "python", "def echo_python"));
    assert!(has("echo_nu", "nushell", "def echo_nu"));
    assert!(has("echo_wasm", "wasmtime", "AGFzbQ")); // base64 magic of \0asm
}

#[test]
fn every_echo_handles_the_event_of_its_name() {
    let list = echo_actors();
    let names: Vec<&str> = list.iter().map(|e| e.name).collect();
    assert_eq!(
        names,
        vec!["echo_steel", "echo_sender", "echo_priv", "echo_python", "echo_nu", "echo_wasm"]
    );
    for e in &list {
        if e.language == "wasmtime" {
            // the export section names the handler
            assert!(e.source.contains("CWVjaG9fd2FzbQ"), "{}", e.source);
        } else {
            assert!(e.source.contains(e.name));
        }
    }
    assert!(list[2].source.contains("auth"));
}

#[test]
fn a_missing_carrier_is_noted() {
    let list = echo_actors();
    assert_eq!(registration(&list[0], Ok(())), Ok("echo_steel"));
    assert_eq!(
        registration(&list[3], Err("no carrier".to_string())),
        Err("prism: echo [echo_python] not registered: no carrier".to_string())
    );
}
