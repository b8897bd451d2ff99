//! The machine protocol, asserted field by field.

use ttid::machine::{self, Json, Member, Reply, Response};
use ttid::ttid::{Generator, Timestamps};

const NOW: f64 = 1_754_179_200_000.0;

fn scaled(now_ms: f64) -> u128 {
    (now_ms * 10_000.0) as u128
}

fn s(text: &str) -> Json {
    Json::Str(text.to_string())
}

fn obj(members: Vec<(&str, Json)>) -> Json {
    Json::Object(
        members
            .into_iter()
            .map(|(key, value)| Member { key: key.to_string(), value })
            .collect(),
    )
}

fn execute(request: &Json) -> Response {
    machine::execute_value(request, scaled(NOW), 0, &mut Generator::new())
}

fn result(request: &Json) -> Reply {
    let response = execute(request);
    assert!(response.ok, "expected success: {response:?}");
    response.body.unwrap()
}

fn id_of(reply: Reply) -> String {
    match reply {
        Reply::Id(id) => id,
        other => panic!("not an id: {other:?}"),
    }
}

fn message(response: &Response) -> &str {
    response.body.as_ref().unwrap_err()
}

#[test]
fn generates_a_ttid_through_the_machine_interface() {
    let response = execute(&obj(vec![("requestId", s("generate-1")), ("op", s("generate"))]));

    assert!(response.ok);
    assert_eq!(machine::PROTOCOL_VERSION, 1);
    assert_eq!(response.op.as_deref(), Some("generate"));
    assert_eq!(response.request_id.as_deref(), Some("generate-1"));
    let id = id_of(response.body.unwrap());
    assert_eq!(id.len(), 11);
}

#[test]
fn updates_and_deletes_an_existing_ttid_through_arguments() {
    let created = id_of(result(&obj(vec![("op", s("generate"))])));
    let updated = id_of(result(&obj(vec![("op", s("generate")), ("id", s(&created))])));
    let deleted = id_of(result(&obj(vec![
        ("op", s("generate")),
        ("id", s(&updated)),
        ("delete", Json::Bool(true)),
    ])));

    assert_eq!(updated.split('-').count(), 2);
    assert_eq!(deleted.split('-').count(), 3);
}

#[test]
fn decodes_timestamps_through_the_machine_interface() {
    let id = id_of(result(&obj(vec![("op", s("generate"))])));
    let response = execute(&obj(vec![
        ("requestId", s("decode-1")),
        ("op", s("decodeTime")),
        ("id", s(&id)),
    ]));
    assert_eq!(response.request_id.as_deref(), Some("decode-1"));
    assert_eq!(
        response.body,
        Ok(Reply::Times(Timestamps { created_at: 1_754_179_200_000, updated_at: None, deleted_at: None }))
    );
}

#[test]
fn validates_ttids_through_the_machine_interface() {
    let id = id_of(result(&obj(vec![("op", s("generate"))])));
    let verdict = result(&obj(vec![("op", s("isTTID")), ("id", s(&id))]));
    assert_eq!(verdict, Reply::Validation { valid: true, created_at: Some(1_754_179_200_000) });

    let rejected = result(&obj(vec![("op", s("isTTID")), ("id", s("not-a-valid-ttid"))]));
    assert_eq!(rejected, Reply::Validation { valid: false, created_at: None });
}

#[test]
fn checks_uuids_through_the_machine_interface() {
    let accepted = result(&obj(vec![
        ("op", s("isUUID")),
        ("id", s("3f2504e0-4f89-41d3-9a0c-0305e82c3301")),
    ]));
    assert_eq!(accepted, Reply::Uuid { valid: true });

    let rejected = result(&obj(vec![("op", s("isUUID")), ("id", s("not-a-uuid"))]));
    assert_eq!(rejected, Reply::Uuid { valid: false });
}

#[test]
fn returns_structured_errors() {
    let response = execute(&obj(vec![
        ("requestId", s("bad-generate")),
        ("op", s("generate")),
        ("id", s("not-a-valid-ttid")),
    ]));

    assert!(!response.ok);
    assert_eq!(response.request_id.as_deref(), Some("bad-generate"));
    assert_eq!(message(&response), "Invalid TTID!");
    assert_eq!(machine::ERROR_NAME, "Error");
    assert_eq!(machine::PROTOCOL_VERSION, 1);
}

#[test]
fn rejects_unsupported_operations_through_the_machine_interface() {
    let response = execute(&obj(vec![("op", s("unknownOperation"))]));

    assert!(!response.ok);
    assert_eq!(message(&response), r#"Unsupported machine operation "unknownOperation""#);
    assert_eq!(response.op.as_deref(), Some("unknownOperation"));
}

#[test]
fn rejects_malformed_envelopes() {
    let cases = [
        (obj(vec![]), r#"Machine request field "op" must be a string"#),
        (
            obj(vec![("op", Json::Number { zero: false })]),
            r#"Machine request field "op" must be a string"#,
        ),
        (s("a string"), "Machine request body must be a JSON object"),
        (Json::Null, "Machine request body must be a JSON object"),
        (Json::Array(vec![]), "Machine request body must be a JSON object"),
    ];
    for (request, expected) in cases {
        let response = execute(&request);
        assert!(!response.ok, "request: {request:?}");
        assert_eq!(message(&response), expected, "request: {request:?}");
        assert_eq!(response.op, None, "request: {request:?}");
    }
}

#[test]
fn ops_that_read_an_id_require_a_non_empty_string() {
    for op in ["decodeTime", "isTTID", "isUUID"] {
        let requests = [
            obj(vec![("op", s(op))]),
            obj(vec![("op", s(op)), ("id", s(""))]),
            obj(vec![("op", s(op)), ("id", s("   "))]),
            obj(vec![("op", s(op)), ("id", Json::Number { zero: false })]),
            obj(vec![("op", s(op)), ("id", Json::Null)]),
        ];
        for request in requests {
            let response = execute(&request);
            assert!(!response.ok, "request: {request:?}");
            assert_eq!(
                message(&response),
                r#"Machine request field "id" must be a non-empty string"#,
                "request: {request:?}"
            );
        }
    }
}

#[test]
fn request_id_is_echoed_or_null() {
    let with = execute(&obj(vec![("op", s("generate")), ("requestId", s("abc"))]));
    assert_eq!(with.request_id.as_deref(), Some("abc"));

    let without = execute(&obj(vec![("op", s("generate"))]));
    assert_eq!(without.request_id, None);

    let wrong_type = execute(&obj(vec![("op", s("generate")), ("requestId", Json::Number { zero: false })]));
    assert_eq!(wrong_type.request_id, None);
}

#[test]
fn the_ndjson_transport_handles_blank_and_malformed_lines() {
    assert!(machine::line_payload("").is_none());
    assert!(machine::line_payload("   \t ").is_none());

    let payload = machine::line_payload("{not json").unwrap();
    assert!(serde_json::from_str::<serde_json::Value>(&payload).is_err());
    let response = machine::invalid_json_response(0);
    assert!(!response.ok);
    assert_eq!(message(&response), "Invalid JSON request");
    assert_eq!(response.op, None);
}

#[test]
fn falsy_ids_mint_a_new_identifier_and_truthy_non_strings_are_refused() {
    for falsy in [Json::Null, Json::Bool(false), s(""), Json::Number { zero: true }] {
        let reply = result(&obj(vec![("op", s("generate")), ("id", falsy)]));
        assert_eq!(id_of(reply).len(), 11);
    }
    for truthy in [Json::Bool(true), Json::Number { zero: false }, Json::Array(vec![]), obj(vec![])] {
        let response = execute(&obj(vec![("op", s("generate")), ("id", truthy)]));
        assert_eq!(message(&response), "Invalid TTID!");
        assert_eq!(response.op.as_deref(), Some("generate"));
    }
}

#[test]
fn canonicalize_through_the_machine_interface() {
    let reply = result(&obj(vec![("op", s("canonicalize")), ("id", s("4sq1nzt5hc0"))]));
    assert_eq!(reply, Reply::Id("4SQ1NZT5HC0".to_string()));
    let response = execute(&obj(vec![("op", s("canonicalize")), ("id", s("nope"))]));
    assert_eq!(message(&response), "Invalid TTID!");
}

#[test]
fn only_a_literal_true_deletes() {
    let created = id_of(result(&obj(vec![("op", s("generate"))])));
    let not_deleted = id_of(result(&obj(vec![
        ("op", s("generate")),
        ("id", s(&created)),
        ("delete", s("yes")),
    ])));
    assert_eq!(not_deleted.split('-').count(), 2);
}

#[test]
fn a_transport_error_reports_the_request_op() {
    let request = obj(vec![("op", s("decodeTime")), ("requestId", s("r1"))]);
    let response = machine::transport_error(&request, 7, "boom".to_string());
    assert!(!response.ok);
    assert_eq!(response.op.as_deref(), Some("decodeTime"));
    assert_eq!(response.request_id.as_deref(), Some("r1"));
    assert_eq!(response.duration_ms, 7);
    assert_eq!(message(&response), "boom");
}
