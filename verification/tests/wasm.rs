//! The edge cases every transport, native or wasm, handles the same way:
//! blank requests get no response, unparseable ones a structured error.

use ttid::machine;

#[test]
fn the_abi_matches_the_native_transport_on_edge_cases() {
    assert_eq!(machine::line_payload("   "), None);
    assert_eq!(machine::line_payload(""), None);

    let payload = machine::line_payload("{not json").expect("a response");
    assert!(serde_json::from_str::<serde_json::Value>(&payload).is_err());
    let malformed = machine::invalid_json_response(0);
    let message = malformed.body.unwrap_err();
    assert!(message.contains("Invalid JSON request"), "{message}");
}
