//! The output normalizer that the process-level suites use to compare runs:
//! it masks wall-clock durations and freshly minted identifiers.

fn mask_duration(text: &str) -> String {
    const KEY: &str = "\"durationMs\"";
    let mut out = String::with_capacity(text.len());
    let mut rest = text;

    while let Some(at) = rest.find(KEY) {
        out.push_str(&rest[..at]);
        out.push_str(KEY);
        let mut tail = &rest[at + KEY.len()..];
        let skipped: String = tail
            .chars()
            .take_while(|c| *c == ':' || c.is_whitespace())
            .collect();
        tail = &tail[skipped.len()..];
        let digits = tail.chars().take_while(char::is_ascii_digit).count();
        if digits == 0 {
            out.push_str(&skipped);
            rest = tail;
            continue;
        }
        out.push_str(skipped.trim_end_matches(char::is_whitespace));
        out.push_str("<N>");
        rest = &tail[digits..];
    }
    out.push_str(rest);
    out
}

fn mask_identifiers(text: &str) -> String {
    let bytes = text.as_bytes();
    let is_word = |b: u8| b.is_ascii_alphanumeric();
    let mut out = String::with_capacity(text.len());
    let mut index = 0;

    while index < bytes.len() {
        let at_boundary = index == 0 || !is_word(bytes[index - 1]);
        if !at_boundary || !is_word(bytes[index]) {
            out.push(bytes[index] as char);
            index += 1;
            continue;
        }

        let mut end = index;
        let mut segments: Vec<&str> = Vec::new();
        loop {
            let start = end;
            while end < bytes.len() && (bytes[end].is_ascii_uppercase() || bytes[end].is_ascii_digit()) {
                end += 1;
            }
            if end == start {
                break;
            }
            segments.push(&text[start..end]);
            if end < bytes.len() && bytes[end] == b'-' && segments.len() < 3 {
                end += 1;
            } else {
                break;
            }
        }

        let looks_like_ttid = segments.first().is_some_and(|first| first.len() == 11)
            && segments.iter().skip(1).all(|s| (1..=11).contains(&s.len()))
            && (end >= bytes.len() || !is_word(bytes[end]));

        if looks_like_ttid {
            let masked: Vec<&str> = segments
                .iter()
                .map(|s| if *s == "X" { "X" } else { "<SEG>" })
                .collect();
            out.push_str(&masked.join("-"));
            index = end;
        } else {
            out.push(bytes[index] as char);
            index += 1;
        }
    }
    out
}

#[test]
fn masks_durations_in_both_spellings() {
    assert_eq!(mask_duration(r#"{"durationMs": 12}"#), r#"{"durationMs":<N>}"#);
    assert_eq!(mask_duration(r#"{"durationMs":0}"#), r#"{"durationMs":<N>}"#);
}

#[test]
fn masks_identifiers_but_keeps_the_placeholder() {
    assert_eq!(mask_identifiers("4SQ1NZT5HC0"), "<SEG>");
    assert_eq!(mask_identifiers("4SQ1NZT5HC0-X-4SQ1NZT5WRK"), "<SEG>-X-<SEG>");
    assert_eq!(mask_identifiers("4SQ1NZT5HC0-4SQ1NZT5P1S"), "<SEG>-<SEG>");
}

#[test]
fn leaves_things_that_are_not_identifiers_alone() {
    assert_eq!(mask_identifiers("hello world"), "hello world");
    assert_eq!(mask_identifiers("ABCDEFGHIJ"), "ABCDEFGHIJ");
    assert_eq!(mask_identifiers("Invalid TTID!"), "Invalid TTID!");
}

#[test]
fn a_generated_id_is_masked_as_a_segment() {
    let id = ttid::ttid::generate(None, false, 17_541_792_000_000_000).unwrap();
    assert_eq!(mask_identifiers(&id), "<SEG>");
}
