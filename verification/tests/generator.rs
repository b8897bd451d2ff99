//! The uniqueness guarantee of the monotonic generator, and the NDJSON line
//! handling the transports share.

use ttid::machine::{self, Reply};
use ttid::ttid::{self as kernel, Generator};

const BURST: usize = 20_000;

fn scaled(now_ms: f64) -> u128 {
    (now_ms * 10_000.0) as u128
}

#[test]
fn blank_ndjson_lines_produce_no_response() {
    assert!(machine::line_payload("   ").is_none());
    assert!(machine::line_payload("").is_none());
}

#[test]
fn malformed_ndjson_reports_invalid_json() {
    let text = machine::line_payload("{not json").expect("not blank");
    assert_eq!(text, "{not json");
    assert!(serde_json::from_str::<serde_json::Value>(&text).is_err());
    let response = machine::invalid_json_response(0);
    assert!(!response.ok);
    assert_eq!(response.op, None);
    assert_eq!(response.request_id, None);
    assert_eq!(response.duration_ms, 0);
    assert_eq!(response.body, Err("Invalid JSON request".to_string()));
    assert_eq!(machine::PROTOCOL_VERSION, 1);
    assert_eq!(machine::ERROR_NAME, "Error");
}

#[test]
fn a_burst_on_a_frozen_clock_never_repeats() {
    let mut generator = Generator::new();
    let frozen = scaled(1_754_179_200_000.0);
    let ids: Vec<String> = (0..BURST)
        .map(|_| generator.generate(None, false, frozen).unwrap())
        .collect();

    let unique: std::collections::HashSet<&String> = ids.iter().collect();
    assert_eq!(unique.len(), BURST, "a frozen clock must still yield unique ids");
}

#[test]
fn a_burst_stays_strictly_increasing_and_sortable() {
    let mut generator = Generator::new();
    let frozen = scaled(1_754_179_200_000.0);
    let ids: Vec<String> = (0..BURST)
        .map(|_| generator.generate(None, false, frozen).unwrap())
        .collect();

    for pair in ids.windows(2) {
        assert!(pair[0] < pair[1], "ids must sort lexicographically by creation");
    }
    assert!(ids.iter().all(|id| id.len() == ids[0].len()));
}

#[test]
fn a_burst_barely_moves_the_decoded_timestamp() {
    let mut generator = Generator::new();
    let frozen = scaled(1_754_179_200_000.0);
    let first = generator.generate(None, false, frozen).unwrap();
    for _ in 1..BURST {
        generator.generate(None, false, frozen).unwrap();
    }
    let last = generator.generate(None, false, frozen).unwrap();

    let drift = kernel::decode_time(&last).unwrap().created_at
        - kernel::decode_time(&first).unwrap().created_at;
    assert!(drift <= 2, "20k ids drifted the decoded timestamp by {drift}ms");
}

#[test]
fn a_moving_clock_is_byte_identical_to_the_stateless_path() {
    let mut generator = Generator::new();
    for step in 0..500 {
        let now = scaled(1_754_179_200_000.0 + f64::from(step));
        let monotonic = generator.generate(None, false, now).unwrap();
        let stateless = kernel::generate(None, false, now).unwrap();
        assert_eq!(monotonic, stateless, "diverged at step {step}");
    }
}

#[test]
fn a_rejected_request_does_not_burn_a_timestamp() {
    let mut generator = Generator::new();
    let frozen = scaled(1_754_179_200_000.0);
    let deleted = "4SQ1NZT5HC0-4SQ1NZT5P1S-4SQ1NZT5WRK";

    let before = generator.generate(None, false, frozen).unwrap();
    assert!(generator.generate(Some(deleted), false, frozen).is_err());
    let after = generator.generate(None, false, frozen).unwrap();

    let step = |id: &str| i128::from_str_radix(id, 36).unwrap();
    assert_eq!(step(&after) - step(&before), 1);
}

#[test]
fn a_generated_id_round_trips_through_the_machine_interface() {
    let mut generator = Generator::new();
    let request = ttid::machine::Json::Object(vec![ttid::machine::Member {
        key: "op".to_string(),
        value: ttid::machine::Json::Str("generate".to_string()),
    }]);
    let response = machine::execute_value(&request, scaled(1_754_179_200_000.0), 0, &mut generator);
    match response.body {
        Ok(Reply::Id(id)) => assert_eq!(kernel::is_ttid(&id), Some(1_754_179_200_000)),
        other => panic!("unexpected {other:?}"),
    }
}
