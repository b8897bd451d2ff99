//! Exact values for the library's own formulas and edge cases.

use ttid::binary64::millis_of_scaled_exec;
use ttid::cli::{self, Command, FileErrorKind};
use ttid::client;
use ttid::machine::{Json, Member};
use ttid::text;
use ttid::ttid::{self as kernel, Generator, Timestamps};

/// The transport's float computation, which the integer one must reproduce.
fn float_millis(v: u128) -> i64 {
    ((v as f64) / 10_000.0).round() as i64
}

#[test]
fn integer_millis_match_binary64_on_every_rounding_edge() {
    let mut values: Vec<u128> = vec![0, 1, 4_999, 5_000, 5_001, 9_999, 10_000, 15_000, 25_000];
    // Around 2^53, where `as f64` starts to round, and around ties of the division.
    let bases: [u128; 5] = [
        9_007_199_254_740_992,
        15_778_368_000_000_000,
        17_541_792_000_005_000,
        72_581_184_000_000_000,
        131_621_703_842_267_135,
    ];
    for base in bases {
        for delta in 0..64u128 {
            values.push(base + delta);
            values.push(base - delta);
        }
        for k in 0..200u128 {
            let around = (base / 10_000 + k) * 10_000 + 5_000;
            for d in [0u128, 1, 2, 3, 4, 5, 8, 16] {
                values.push(around + d);
                values.push(around - d);
            }
        }
    }
    for v in values {
        assert_eq!(millis_of_scaled_exec(v) as i64, float_millis(v), "value {v}");
    }
}

#[test]
fn integer_millis_match_binary64_on_a_pseudo_random_spread() {
    let mut x: u128 = 0x2545_F491_4F6C_DD1D;
    for _ in 0..200_000 {
        x ^= x << 13;
        x ^= x >> 7;
        x ^= x << 17;
        x &= (1u128 << 64) - 1;
        let v = x % 131_621_703_842_267_136;
        assert_eq!(millis_of_scaled_exec(v) as i64, float_millis(v), "value {v}");
    }
}

#[test]
fn base36_encodes_exact_values() {
    assert_eq!(kernel::generate(None, false, 0).unwrap(), "0");
    assert_eq!(kernel::generate(None, false, 35).unwrap(), "Z");
    assert_eq!(kernel::generate(None, false, 36).unwrap(), "10");
    assert_eq!(kernel::generate(None, false, 17_541_792_000_000_000).unwrap(), "4SQ1NZT5HC0");
}

#[test]
fn known_ids_decode_to_known_instants() {
    assert_eq!(
        kernel::decode_time("4SQ1NZT5HC0-X-4SQ1NZT5WRK"),
        Ok(Timestamps { created_at: 1_754_179_200_000, updated_at: None, deleted_at: Some(1_754_179_200_002) })
    );
    assert_eq!(kernel::is_ttid("4sq1nzt5hc0"), Some(1_754_179_200_000));
    assert_eq!(kernel::canonical("4sq1nzt5hc0-4sq1nzt5p1s").as_deref(), Some("4SQ1NZT5HC0-4SQ1NZT5P1S"));
}

#[test]
fn the_placeholder_is_read_in_either_case() {
    let upper = kernel::decode_time("4SQ1NZT5HC0-X-4SQ1NZT5P1S");
    assert_eq!(
        upper,
        Ok(Timestamps { created_at: 1_754_179_200_000, updated_at: None, deleted_at: Some(1_754_179_200_001) })
    );
    assert_eq!(kernel::decode_time("4sq1nzt5hc0-x-4sq1nzt5p1s"), upper);
    assert_eq!(kernel::decode_time("4SQ1NZT5HC0-x-4SQ1NZT5P1S"), upper);
    assert_eq!(kernel::is_ttid("4sq1nzt5hc0-x-4sq1nzt5p1s"), Some(1_754_179_200_000));
    assert_eq!(
        kernel::canonical("4sq1nzt5hc0-x-4sq1nzt5p1s").as_deref(),
        Some("4SQ1NZT5HC0-X-4SQ1NZT5P1S")
    );
    assert_eq!(
        kernel::decode_time("4sq1nzt5hc0-x"),
        Ok(Timestamps { created_at: 1_754_179_200_000, updated_at: None, deleted_at: None })
    );
    assert_eq!(
        kernel::generate(Some("4sq1nzt5hc0-x-4sq1nzt5p1s"), false, 17_541_792_000_020_000).unwrap_err().0,
        "This identifier can no longer be modified"
    );
}

#[test]
fn stamps_decode_to_the_nearest_millisecond_off_the_half() {
    // 2025-08-03T00:00:00.000Z plus a fraction of a millisecond, in units of 0.1 µs.
    let base: u128 = 17_541_792_000_000_000;
    for (fraction, expected) in [(0u128, 0i64), (1_000, 0), (2_500, 0), (4_979, 0), (5_020, 1), (7_531, 1), (9_999, 1)] {
        let v = base + fraction;
        let id = kernel::generate(None, false, v).unwrap();
        assert_eq!(kernel::decode_time(&id).unwrap().created_at, 1_754_179_200_000 + expected, "fraction {fraction}");
        assert_eq!(float_millis(v), 1_754_179_200_000 + expected);
    }
    // Inside the band around a half, either neighbour is allowed.
    for fraction in 4_980u128..5_020 {
        let decoded = millis_of_scaled_exec(base + fraction) as i64;
        assert!(decoded == 1_754_179_200_000 || decoded == 1_754_179_200_001);
    }
}

#[test]
fn an_advanced_id_keeps_its_creation_segment() {
    let advanced = kernel::generate(Some("4sq1nzt5hc0-4SQ1NZT5P1S"), false, 17_541_792_000_020_000).unwrap();
    assert_eq!(advanced, "4SQ1NZT5HC0-4SQ1NZT5WRK");
    let deleted = kernel::generate(Some("4sq1nzt5hc0-4SQ1NZT5P1S"), true, 17_541_792_000_020_000).unwrap();
    assert_eq!(deleted, "4SQ1NZT5HC0-4SQ1NZT5P1S-4SQ1NZT5WRK");
}

#[test]
fn the_generator_bumps_a_stalled_clock_by_one_unit() {
    let mut generator = Generator::new();
    assert_eq!(generator.generate(None, false, 36).unwrap(), "10");
    assert_eq!(generator.generate(None, false, 36).unwrap(), "11");
    assert_eq!(generator.generate(None, false, 10).unwrap(), "12");
    assert_eq!(generator.generate(None, false, 100).unwrap(), "2S");
    let default = Generator::default();
    let _ = default;
}

#[test]
fn ids_from_one_generator_increase_and_sort_in_issue_order() {
    let mut generator = Generator::new();
    let now = 17_541_792_000_000_000;
    let first = generator.generate(None, false, now).unwrap();
    let second = generator.generate(None, false, now).unwrap();
    let third = generator.generate(None, false, now - 5).unwrap();
    assert_eq!(first.len(), 11);
    assert!(first < second && second < third);
    assert_eq!(kernel::decode_time(&first), kernel::decode_time(&third));
}

fn strings(items: &[&str]) -> Vec<String> {
    items.iter().map(|s| s.to_string()).collect()
}

#[test]
fn arguments_are_flags_anywhere_and_positionals_otherwise() {
    let args = cli::parse(&strings(&["generate", "--delete", "ABC", "--unknown", "-h"])).unwrap();
    assert_eq!(args.positionals, strings(&["generate", "ABC", "--unknown"]));
    assert!(args.delete && args.help && !args.loop_mode);
    assert_eq!(args.request, None);

    let args = cli::parse(&strings(&["exec", "--request", "{}", "--loop"])).unwrap();
    assert_eq!(args.request.as_deref(), Some("{}"));
    assert!(args.loop_mode);

    assert_eq!(cli::parse(&strings(&["exec", "--request"])).err().as_deref(), Some("Missing value for --request"));
    assert_eq!(cli::parse(&strings(&["exec", "--request", ""])).err().as_deref(), Some("Missing value for --request"));
}

fn build(items: &[&str]) -> Result<Command, String> {
    cli::build_request(&cli::parse(&strings(items)).unwrap())
}

fn field<'a>(json: &'a Json, key: &str) -> Option<&'a Json> {
    match json {
        Json::Object(members) => members.iter().find(|m| m.key == key).map(|m| &m.value),
        _ => None,
    }
}

#[test]
fn each_command_builds_its_request() {
    match build(&["generate", "ABC", "--delete"]).unwrap() {
        Command::Request(j) => {
            assert_eq!(field(&j, "op"), Some(&Json::Str("generate".into())));
            assert_eq!(field(&j, "id"), Some(&Json::Str("ABC".into())));
            assert_eq!(field(&j, "delete"), Some(&Json::Bool(true)));
        },
        Command::Exec { .. } => panic!("not exec"),
    }
    match build(&["validate", "ABC"]).unwrap() {
        Command::Request(j) => assert_eq!(field(&j, "op"), Some(&Json::Str("isTTID".into()))),
        Command::Exec { .. } => panic!("not exec"),
    }
    match build(&["exec", "--request", "@file"]).unwrap() {
        Command::Exec { source } => assert_eq!(source, "@file"),
        Command::Request(_) => panic!("exec"),
    }
    assert_eq!(build(&["generate", "--delete"]).err().as_deref(), Some("Missing id for --delete"));
    assert_eq!(build(&["decode"]).err().as_deref(), Some("Missing id for decode"));
    assert_eq!(build(&["exec"]).err().as_deref(), Some("Missing --request for exec"));
    assert_eq!(build(&["frob"]).err().as_deref(), Some("Unsupported command \"frob\""));
    assert_eq!(build(&[]).err().as_deref(), Some("Unsupported command \"\""));
}

#[test]
fn file_errors_read_like_the_system_call() {
    assert_eq!(
        cli::errno_message(FileErrorKind::NotFound, "req.json", "x".into()),
        "ENOENT: no such file or directory, open 'req.json'"
    );
    assert_eq!(
        cli::errno_message(FileErrorKind::PermissionDenied, "req.json", "x".into()),
        "EACCES: permission denied, open 'req.json'"
    );
    assert_eq!(cli::errno_message(FileErrorKind::Other, "req.json", "other".into()), "other");
}

#[test]
fn client_lines_escape_their_ids() {
    assert_eq!(client::esc("a\"b\\c\n\r\t\u{1}é"), "a\\\"b\\\\c\\n\\r\\t\\u0001é");
    assert_eq!(client::generate_request(None, false), r#"{"op":"generate"}"#);
    assert_eq!(
        client::generate_request(Some("4SQ1NZT5HC0"), true),
        r#"{"op":"generate","id":"4SQ1NZT5HC0","delete":true}"#
    );
    assert_eq!(client::id_request("isTTID", "a\"b"), r#"{"op":"isTTID","id":"a\"b"}"#);
    assert!(client::response_succeeded("{\"protocolVersion\":1,\"ok\":true}"));
    assert!(!client::response_succeeded("{\"protocolVersion\":1,\"ok\":false}"));
    assert!(!client::response_succeeded(""));
}

#[test]
fn an_escaped_body_reads_back_as_the_original_string() {
    for s in ["", "plain", "a\"b\\c\n\r\t\u{1}\u{1f}é", "\u{8}\u{c}/", "4SQ1NZT5HC0-X"] {
        let quoted = format!("\"{}\"", client::esc(s));
        assert_eq!(serde_json::from_str::<String>(&quoted).unwrap(), s);
    }
}

#[test]
fn many_calls_of_one_generator_issue_rising_stamps() {
    let mut generator = Generator::new();
    let clocks: [u128; 8] = [
        17_541_792_000_000_000,
        17_541_792_000_000_000,
        17_541_791_999_999_000,
        17_541_792_000_000_003,
        17_541_792_000_500_000,
        17_541_792_000_500_000,
        1,
        17_541_792_000_500_001,
    ];
    let mut previous = String::new();
    for clock in clocks {
        let id = generator.generate(None, false, clock).unwrap();
        assert!(id > previous, "{id} after {previous}");
        previous = id;
    }
    assert!(generator.generate(Some("not an id"), false, 0).is_err());
    let after = generator.generate(None, false, 0).unwrap();
    assert!(after > previous);
}

#[test]
fn trimming_removes_unicode_whitespace_only() {
    assert_eq!(text::trim_exec("\u{3000} a b \u{a0}\n"), "a b");
    assert_eq!(text::trim_exec("   "), "");
    assert_eq!(text::trim_exec("\u{feff}x"), "\u{feff}x");
}

#[test]
fn a_member_lookup_takes_the_first_match() {
    let j = Json::Object(vec![
        Member { key: "op".into(), value: Json::Str("isUUID".into()) },
        Member { key: "id".into(), value: Json::Str("x".into()) },
    ]);
    assert_eq!(ttid::machine::op_of(&j), Some("isUUID"));
    assert_eq!(ttid::machine::request_id_of(&j), None);
}
