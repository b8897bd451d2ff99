//! The TTID kernel: identifiers of one to three base-36 timestamp segments,
//! their validation, decoding and lifecycle. Pure computation: the current
//! time comes in as an argument.

use crate::binary64::{millis_of_scaled, millis_of_scaled_exec};
use crate::text::{
    append_chars, ascii_upper, ascii_upper_exec, chars_of, is_ascii_alnum, is_ascii_alnum_exec,
    is_ascii_hex, is_ascii_hex_exec, push_char, string_of_chars,
};
use vstd::arithmetic::power2::lemma2_to64_rest;
use vstd::prelude::*;

verus! {

/// Message of a malformed identifier.
pub const INVALID_FORMAT: &'static str = "Invalid Format!";

/// Message of a well-formed segment outside the supported time range.
pub const INVALID_TIMESTAMP: &'static str = "Invalid timestamp encoding";

/// Message of an attempt to advance a deleted identifier.
pub const IMMUTABLE: &'static str = "This identifier can no longer be modified";

/// Message of an attempt to advance something that is not a TTID.
pub const INVALID_TTID: &'static str = "Invalid TTID!";

/// Earliest accepted timestamp, in ms since the epoch: 2020-01-01T00:00:00Z.
pub const MIN_TIMESTAMP_MS: i64 = 1_577_836_800_000;

/// Latest accepted timestamp, in ms since the epoch: 2200-01-01T00:00:00Z.
pub const MAX_TIMESTAMP_MS: i64 = 7_258_118_400_000;

/// The timestamps encoded in a TTID, in milliseconds since the epoch.
#[derive(Debug, Clone, Copy, PartialEq, Eq)]
pub struct Timestamps {
    /// When the identifier was created.
    pub created_at: i64,
    /// When the identifier was last updated, if ever.
    pub updated_at: Option<i64>,
    /// When the identifier was deleted, if ever.
    pub deleted_at: Option<i64>,
}

/// A failure of a kernel operation; the message is part of the protocol.
#[derive(Debug, Clone, Copy, PartialEq, Eq)]
pub struct TtidError(pub &'static str);

// ---------------------------------------------------------------------------
// The model
// ---------------------------------------------------------------------------

/// `s` split at every `-`, as `str::split('-')` does: always at least one
/// segment, empty segments kept.
pub open spec fn split_dash(s: Seq<char>) -> Seq<Seq<char>>
    decreases s.len(),
{
    if s.len() == 0 {
        seq![Seq::empty()]
    } else {
        let prev = split_dash(s.drop_last());
        if s.last() == '-' {
            prev.push(Seq::empty())
        } else {
            prev.update(prev.len() - 1, prev.last().push(s.last()))
        }
    }
}

/// Every character is an ASCII letter or digit.
pub open spec fn all_alnum(s: Seq<char>) -> bool {
    forall|i: int| 0 <= i < s.len() ==> is_ascii_alnum(#[trigger] s[i])
}

/// Every character is an ASCII hexadecimal digit.
pub open spec fn all_hex(s: Seq<char>) -> bool {
    forall|i: int| 0 <= i < s.len() ==> is_ascii_hex(#[trigger] s[i])
}

/// The segments of a TTID: `[A-Za-z0-9]{11}` then at most two
/// `[A-Za-z0-9]{1,11}`.
pub open spec fn ttid_segments_ok(segs: Seq<Seq<char>>) -> bool {
    &&& 1 <= segs.len() <= 3
    &&& segs[0].len() == 11
    &&& all_alnum(segs[0])
    &&& forall|j: int|
        1 <= j < segs.len() ==> 1 <= #[trigger] segs[j].len() <= 11 && all_alnum(segs[j])
}

/// `^[A-Z0-9]{11}(-[A-Z0-9]{1,11}){0,2}$`, case-insensitive.
pub open spec fn matches_ttid_pattern(s: Seq<char>) -> bool {
    ttid_segments_ok(split_dash(s))
}

/// The five dash-separated hex groups of a UUID, of widths 8-4-4-4-12.
pub open spec fn uuid_segments_ok(segs: Seq<Seq<char>>) -> bool {
    &&& segs.len() == 5
    &&& segs[0].len() == 8
    &&& segs[1].len() == 4
    &&& segs[2].len() == 4
    &&& segs[3].len() == 4
    &&& segs[4].len() == 12
    &&& forall|j: int| 0 <= j < 5 ==> all_hex(#[trigger] segs[j])
}

/// A UUID of any version or variant, in either case.
pub open spec fn matches_uuid_pattern(s: Seq<char>) -> bool {
    uuid_segments_ok(split_dash(s))
}

/// The value of a base-36 digit, in either case.
pub open spec fn digit_value(c: char) -> nat {
    if '0' <= c && c <= '9' {
        (c as int - '0' as int) as nat
    } else if 'A' <= c && c <= 'Z' {
        (c as int - 'A' as int + 10) as nat
    } else if 'a' <= c && c <= 'z' {
        (c as int - 'a' as int + 10) as nat
    } else {
        0
    }
}

/// The exact value of a string of base-36 digits.
pub open spec fn base36_value(s: Seq<char>) -> nat
    decreases s.len(),
{
    if s.len() == 0 {
        0
    } else {
        base36_value(s.drop_last()) * 36 + digit_value(s.last())
    }
}

/// The milliseconds a segment stands for, when within 2020..=2200.
pub open spec fn segment_millis(seg: Seq<char>) -> Option<i64> {
    let ms = millis_of_scaled(base36_value(seg));
    if MIN_TIMESTAMP_MS <= ms <= MAX_TIMESTAMP_MS {
        Some(ms as i64)
    } else {
        None
    }
}

/// The update slot holds this placeholder when an id is deleted without a
/// prior update; it is always emitted in uppercase.
pub open spec fn placeholder() -> Seq<char> {
    seq!['X']
}

/// An update slot that holds the placeholder, in either case: identifiers
/// are read case-insensitively.
pub open spec fn is_placeholder(seg: Seq<char>) -> bool {
    seg == seq!['X'] || seg == seq!['x']
}

/// What `decode_time` answers for `s`.
pub open spec fn decode_spec(s: Seq<char>) -> Result<Timestamps, TtidError> {
    if !matches_ttid_pattern(s) {
        Err(TtidError(INVALID_FORMAT))
    } else {
        let segs = split_dash(s);
        let created = segment_millis(segs[0]);
        let has_update = segs.len() >= 2 && !is_placeholder(segs[1]);
        let updated = segment_millis(segs[1]);
        let has_delete = segs.len() >= 3;
        let deleted = segment_millis(segs[2]);
        if created is None || (has_update && updated is None) || (has_delete && deleted is None) {
            Err(TtidError(INVALID_TIMESTAMP))
        } else {
            Ok(
                Timestamps {
                    created_at: created.unwrap(),
                    updated_at: if has_update {
                        updated
                    } else {
                        None
                    },
                    deleted_at: if has_delete {
                        deleted
                    } else {
                        None
                    },
                },
            )
        }
    }
}

/// What `is_ttid` answers for `s`: its creation time when it is a valid TTID
/// of at most 36 characters.
pub open spec fn is_ttid_spec(s: Seq<char>) -> Option<i64> {
    if s.len() == 0 || s.len() > 36 {
        None
    } else {
        match decode_spec(s) {
            Ok(t) => Some(t.created_at),
            Err(_) => None,
        }
    }
}

/// What `canonical` answers for `s`.
pub open spec fn canonical_spec(s: Seq<char>) -> Option<Seq<char>> {
    if is_ttid_spec(s) is Some {
        Some(ascii_upper(s))
    } else {
        None
    }
}

/// The uppercase base-36 digit for `d < 36`.
pub open spec fn digit_char(d: nat) -> char {
    if d < 10 {
        (d + 48) as char
    } else {
        (d + 55) as char
    }
}

/// `v` in uppercase base 36, most significant digit first, no leading zeros.
pub open spec fn base36(v: nat) -> Seq<char>
    decreases v,
{
    if v < 36 {
        seq![digit_char(v)]
    } else {
        base36(v / 36).push(digit_char(v % 36))
    }
}

/// What `generate` answers: a new id, or `id` advanced to the update or the
/// delete stage, stamped with `scaled` (ten thousand units per millisecond).
pub open spec fn generate_spec(id: Option<Seq<char>>, delete: bool, scaled: nat) -> Result<
    Seq<char>,
    TtidError,
> {
    let existing = match id {
        Some(s) => s.len() > 0,
        None => false,
    };
    let s = id.unwrap();
    let valid = existing && is_ttid_spec(s) is Some;
    let segs = split_dash(s);
    let encoded = base36(scaled);
    if valid && segs.len() == 3 {
        Err(TtidError(IMMUTABLE))
    } else if valid {
        let created = ascii_upper(segs[0]);
        if delete {
            let updated = if segs.len() >= 2 {
                ascii_upper(segs[1])
            } else {
                placeholder()
            };
            Ok(created + seq!['-'] + updated + seq!['-'] + encoded)
        } else {
            Ok(created + seq!['-'] + encoded)
        }
    } else if existing {
        Err(TtidError(INVALID_TTID))
    } else {
        Ok(encoded)
    }
}

/// The view of a kernel result that carries a string.
pub open spec fn string_result(r: Result<String, TtidError>) -> Result<Seq<char>, TtidError> {
    match r {
        Ok(s) => Ok(s@),
        Err(e) => Err(e),
    }
}

/// The view of an optional string argument.
pub open spec fn option_str(id: Option<&str>) -> Option<Seq<char>> {
    match id {
        Some(s) => Some(s@),
        None => None,
    }
}

// ---------------------------------------------------------------------------
// Facts about the model
// ---------------------------------------------------------------------------

pub proof fn lemma_split_dash_len(s: Seq<char>)
    ensures
        split_dash(s).len() >= 1,
        split_dash(s).len() <= s.len() + 1,
    decreases s.len(),
{
    if s.len() > 0 {
        lemma_split_dash_len(s.drop_last());
    }
}

/// The exact value of at most 11 base-36 digits stays below `36^11 < 2^57`.
pub open spec fn pow36(n: nat) -> nat
    decreases n,
{
    if n == 0 {
        1
    } else {
        36 * pow36((n - 1) as nat)
    }
}

pub proof fn lemma_base36_value_bound(s: Seq<char>)
    ensures
        base36_value(s) < pow36(s.len()),
    decreases s.len(),
{
    if s.len() > 0 {
        lemma_base36_value_bound(s.drop_last());
        let p = pow36((s.len() - 1) as nat);
        let v = base36_value(s.drop_last());
        assert(digit_value(s.last()) < 36);
        assert(v * 36 + digit_value(s.last()) < 36 * p) by (nonlinear_arith)
            requires
                v < p,
                digit_value(s.last()) < 36,
        ;
    }
}

pub proof fn lemma_pow36_11()
    ensures
        pow36(11) == 131621703842267136,
{
    reveal_with_fuel(pow36, 12);
}

pub proof fn lemma_pow36_grows(a: nat, b: nat)
    requires
        a <= b,
    ensures
        pow36(a) <= pow36(b),
    decreases b,
{
    if a < b {
        lemma_pow36_grows(a, (b - 1) as nat);
    }
}

// ---------------------------------------------------------------------------
// The kernel
// ---------------------------------------------------------------------------

/// `str::split('-')` over characters.
fn split_dash_exec(s: &Vec<char>) -> (segs: Vec<Vec<char>>)
    ensures
        segs@.len() == split_dash(s@).len(),
        forall|j: int| 0 <= j < segs@.len() ==> (#[trigger] segs@[j])@ == split_dash(s@)[j],
{
    let mut done: Vec<Vec<char>> = Vec::new();
    let mut cur: Vec<char> = Vec::new();
    proof {
        assert(s@.take(0) =~= Seq::<char>::empty());
    }
    for i in 0..s.len()
        invariant
            split_dash(s@.take(i as int)).len() == done@.len() + 1,
            forall|j: int|
                0 <= j < done@.len() ==> (#[trigger] done@[j])@ == split_dash(s@.take(i as int))[j],
            split_dash(s@.take(i as int)).last() == cur@,
    {
        let c = s[i];
        proof {
            assert(s@.take(i + 1).drop_last() =~= s@.take(i as int));
            lemma_split_dash_len(s@.take(i as int));
        }
        if c == '-' {
            done.push(cur);
            cur = Vec::new();
        } else {
            cur.push(c);
        }
    }
    proof {
        assert(s@.take(s@.len() as int) =~= s@);
    }
    done.push(cur);
    done
}

/// All characters are ASCII letters or digits.
fn all_alnum_exec(s: &Vec<char>) -> (b: bool)
    ensures
        b == all_alnum(s@),
{
    for i in 0..s.len()
        invariant
            forall|j: int| 0 <= j < i ==> is_ascii_alnum(#[trigger] s@[j]),
    {
        if !is_ascii_alnum_exec(s[i]) {
            return false;
        }
    }
    true
}

/// All characters are ASCII hex digits.
fn all_hex_exec(s: &Vec<char>) -> (b: bool)
    ensures
        b == all_hex(s@),
{
    for i in 0..s.len()
        invariant
            forall|j: int| 0 <= j < i ==> is_ascii_hex(#[trigger] s@[j]),
    {
        if !is_ascii_hex_exec(s[i]) {
            return false;
        }
    }
    true
}

/// The TTID pattern on already split segments.
fn ttid_segments_ok_exec(segs: &Vec<Vec<char>>) -> (b: bool)
    ensures
        b == ttid_segments_ok(segs@.map_values(|v: Vec<char>| v@)),
{
    let ghost views = segs@.map_values(|v: Vec<char>| v@);
    if segs.len() < 1 || segs.len() > 3 {
        return false;
    }
    proof {
        assert(views[0] == segs@[0]@);
    }
    if segs[0].len() != 11 || !all_alnum_exec(&segs[0]) {
        return false;
    }
    let mut j: usize = 1;
    while j < segs.len()
        invariant
            1 <= j <= segs.len(),
            segs.len() <= 3,
            views == segs@.map_values(|v: Vec<char>| v@),
            views[0].len() == 11,
            all_alnum(views[0]),
            forall|k: int| 1 <= k < j ==> 1 <= #[trigger] views[k].len() <= 11 && all_alnum(views[k]),
        decreases segs.len() - j,
    {
        proof {
            assert(views[j as int] == segs@[j as int]@);
        }
        if segs[j].len() < 1 || segs[j].len() > 11 || !all_alnum_exec(&segs[j]) {
            return false;
        }
        j = j + 1;
    }
    true
}

/// The UUID pattern on already split segments.
fn uuid_segments_ok_exec(segs: &Vec<Vec<char>>) -> (b: bool)
    ensures
        b == uuid_segments_ok(segs@.map_values(|v: Vec<char>| v@)),
{
    let ghost views = segs@.map_values(|v: Vec<char>| v@);
    if segs.len() != 5 {
        return false;
    }
    if segs[0].len() != 8 || segs[1].len() != 4 || segs[2].len() != 4 || segs[3].len() != 4
        || segs[4].len() != 12 {
        return false;
    }
    let mut j: usize = 0;
    while j < 5
        invariant
            j <= 5,
            segs.len() == 5,
            views == segs@.map_values(|v: Vec<char>| v@),
            forall|k: int| 0 <= k < j ==> all_hex(#[trigger] views[k]),
        decreases 5 - j,
    {
        proof {
            assert(views[j as int] == segs@[j as int]@);
        }
        if !all_hex_exec(&segs[j]) {
            return false;
        }
        j = j + 1;
    }
    true
}

/// The value of one base-36 digit.
fn digit_value_exec(c: char) -> (d: u128)
    ensures
        d == digit_value(c),
{
    let n: u32 = c as u32;
    if '0' <= c && c <= '9' {
        (n - 48) as u128
    } else if 'A' <= c && c <= 'Z' {
        (n - 55) as u128
    } else if 'a' <= c && c <= 'z' {
        (n - 87) as u128
    } else {
        0
    }
}

/// The milliseconds of a segment of at most 11 digits, when in range.
fn segment_millis_exec(seg: &Vec<char>) -> (r: Option<i64>)
    requires
        seg@.len() <= 11,
    ensures
        r == segment_millis(seg@),
{
    let mut v: u128 = 0;
    for i in 0..seg.len()
        invariant
            seg@.len() <= 11,
            v == base36_value(seg@.take(i as int)),
            v < pow36(i as nat),
    {
        proof {
            assert(seg@.take(i + 1).drop_last() =~= seg@.take(i as int));
            lemma_base36_value_bound(seg@.take(i + 1));
            lemma_pow36_grows((i + 1) as nat, 11);
            lemma_pow36_11();
        }
        v = v * 36 + digit_value_exec(seg[i]);
    }
    proof {
        assert(seg@.take(seg@.len() as int) =~= seg@);
        lemma_pow36_grows(seg@.len(), 11);
        lemma_pow36_11();
        lemma2_to64_rest();
    }
    let ms = millis_of_scaled_exec(v);
    if 1_577_836_800_000 <= ms && ms <= 7_258_118_400_000 {
        Some(ms as i64)
    } else {
        None
    }
}

/// Decode the timestamps embedded in a TTID.
pub fn decode_time(id: &str) -> (r: Result<Timestamps, TtidError>)
    ensures
        r == decode_spec(id@),
{
    let chars = chars_of(id);
    let segs = split_dash_exec(&chars);
    let ghost views = segs@.map_values(|v: Vec<char>| v@);
    proof {
        assert(views =~= split_dash(id@));
    }
    if !ttid_segments_ok_exec(&segs) {
        return Err(TtidError(INVALID_FORMAT));
    }
    let created = segment_millis_exec(&segs[0]);
    let has_update = segs.len() >= 2 && !(segs[1].len() == 1 && (segs[1][0] == 'X'
        || segs[1][0] == 'x'));
    proof {
        if segs.len() >= 2 {
            if segs[1]@.len() == 1 && (segs[1]@[0] == 'X' || segs[1]@[0] == 'x') {
                assert(segs[1]@ =~= seq![segs[1]@[0]]);
                assert(is_placeholder(segs[1]@));
            } else {
                assert(segs[1]@ != seq!['X'] && segs[1]@ != seq!['x']) by {
                    if segs[1]@ == seq!['X'] || segs[1]@ == seq!['x'] {
                        assert(segs[1]@.len() == 1);
                    }
                }
            }
        }
    }
    let updated = if has_update {
        segment_millis_exec(&segs[1])
    } else {
        None
    };
    let has_delete = segs.len() >= 3;
    let deleted = if has_delete {
        segment_millis_exec(&segs[2])
    } else {
        None
    };
    match created {
        None => Err(TtidError(INVALID_TIMESTAMP)),
        Some(created_at) => {
            if has_update && updated.is_none() {
                Err(TtidError(INVALID_TIMESTAMP))
            } else if has_delete && deleted.is_none() {
                Err(TtidError(INVALID_TIMESTAMP))
            } else {
                Ok(Timestamps { created_at, updated_at: updated, deleted_at: deleted })
            }
        },
    }
}

/// Check whether a string is a valid TTID, returning its creation time in
/// milliseconds. Inputs longer than 36 characters are refused before any
/// parsing.
pub fn is_ttid(id: &str) -> (r: Option<i64>)
    ensures
        r == is_ttid_spec(id@),
{
    if id.is_empty() || id.unicode_len() > 36 {
        return None;
    }
    match decode_time(id) {
        Ok(times) => Some(times.created_at),
        Err(_) => None,
    }
}

/// The canonical (uppercase) spelling of a valid TTID; `None` for anything
/// that is not one.
pub fn canonical(id: &str) -> (r: Option<String>)
    ensures
        match r {
            Some(s) => canonical_spec(id@) == Some(s@),
            None => canonical_spec(id@) is None,
        },
{
    match is_ttid(id) {
        Some(_) => {
            let chars = chars_of(id);
            let upper = ascii_upper_exec(chars.as_slice());
            Some(string_of_chars(upper.as_slice()))
        },
        None => None,
    }
}

/// Check whether a string is a valid UUID of any version or variant.
pub fn is_uuid(id: &str) -> (b: bool)
    ensures
        b == matches_uuid_pattern(id@),
{
    let chars = chars_of(id);
    let segs = split_dash_exec(&chars);
    let ghost views = segs@.map_values(|v: Vec<char>| v@);
    proof {
        assert(views =~= split_dash(id@));
    }
    uuid_segments_ok_exec(&segs)
}

/// The uppercase base-36 digit for `d`.
fn digit_char_exec(d: u128) -> (c: char)
    requires
        d < 36,
    ensures
        c == digit_char(d as nat),
{
    if d < 10 {
        ((d + 48) as u8) as char
    } else {
        ((d + 55) as u8) as char
    }
}

/// `value` in uppercase base 36.
fn to_base36(value: u128) -> (s: String)
    ensures
        s@ == base36(value as nat),
    decreases value,
{
    if value < 36 {
        let mut s = String::new();
        push_char(&mut s, digit_char_exec(value));
        s
    } else {
        let mut s = to_base36(value / 36);
        push_char(&mut s, digit_char_exec(value % 36));
        s
    }
}

/// Generate a new TTID or advance an existing one through its lifecycle.
///
/// `scaled` is the current high-resolution time in ten-thousandths of a
/// millisecond, supplied by the transport.
pub fn generate(id: Option<&str>, delete: bool, scaled: u128) -> (r: Result<String, TtidError>)
    ensures
        string_result(r) == generate_spec(option_str(id), delete, scaled as nat),
{
    let existing: Option<&str> = match id {
        Some(v) => if v.is_empty() {
            None
        } else {
            Some(v)
        },
        None => None,
    };
    let valid = match existing {
        Some(v) => is_ttid(v).is_some(),
        None => false,
    };
    if valid {
        let v = existing.unwrap();
        let chars = chars_of(v);
        let segs = split_dash_exec(&chars);
        let ghost views = segs@.map_values(|x: Vec<char>| x@);
        proof {
            assert(views =~= split_dash(v@));
            assert(views[0] == segs@[0]@);
        }
        if segs.len() == 3 {
            return Err(TtidError(IMMUTABLE));
        }
        let encoded = to_base36(scaled);
        let created = ascii_upper_exec(segs[0].as_slice());
        let mut out = string_of_chars(created.as_slice());
        push_char(&mut out, '-');
        if delete {
            if segs.len() >= 2 {
                proof {
                    assert(views[1] == segs@[1]@);
                }
                let updated = ascii_upper_exec(segs[1].as_slice());
                append_chars(&mut out, updated.as_slice());
            } else {
                push_char(&mut out, 'X');
                proof {
                    assert(seq!['X'] =~= placeholder());
                }
            }
            push_char(&mut out, '-');
        }
        let ghost before = out@;
        out.append(encoded.as_str());
        proof {
            if delete {
                let updated = if views.len() >= 2 {
                    ascii_upper(views[1])
                } else {
                    placeholder()
                };
                assert(out@ =~= ascii_upper(views[0]) + seq!['-'] + updated + seq!['-'] + base36(
                    scaled as nat,
                ));
            } else {
                assert(out@ =~= ascii_upper(views[0]) + seq!['-'] + base36(scaled as nat));
            }
        }
        return Ok(out);
    }
    if existing.is_some() {
        return Err(TtidError(INVALID_TTID));
    }
    Ok(to_base36(scaled))
}

/// The stamp a [`Generator`] issues: the clock, unless it has not moved past
/// the last stamp issued, in which case the next unit after it.
pub open spec fn next_stamp(last: nat, scaled: nat) -> nat {
    let bumped = if last < u128::MAX {
        last + 1
    } else {
        last
    };
    if scaled >= bumped {
        scaled
    } else {
        bumped
    }
}

/// A monotonic id source: never issues the same stamp twice.
///
/// When the clock has not advanced past the last stamp issued, the next unit
/// (0.1 µs) is used instead, so ids stay distinct and strictly increasing.
#[derive(Debug)]
pub struct Generator {
    last: u128,
}

impl View for Generator {
    type V = nat;

    /// The last stamp issued (zero before the first).
    closed spec fn view(&self) -> nat {
        self.last as nat
    }
}

impl Generator {
    /// A generator that has issued nothing yet.
    pub fn new() -> (g: Self)
        ensures
            g@ == 0,
    {
        Generator { last: 0 }
    }

    /// As [`generate`], but never repeats a stamp already issued.
    ///
    /// A rejected request leaves the generator as it was.
    pub fn generate(&mut self, id: Option<&str>, delete: bool, scaled: u128) -> (r: Result<
        String,
        TtidError,
    >)
        ensures
            string_result(r) == generate_spec(
                option_str(id),
                delete,
                next_stamp(old(self)@, scaled as nat),
            ),
            r is Ok ==> final(self)@ == next_stamp(old(self)@, scaled as nat),
            r is Err ==> final(self)@ == old(self)@,
            r is Ok && old(self)@ < u128::MAX ==> final(self)@ > old(self)@,
            scaled > old(self)@ ==> string_result(r) == generate_spec(
                option_str(id),
                delete,
                scaled as nat,
            ),
    {
        let bumped = if self.last < u128::MAX {
            self.last + 1
        } else {
            self.last
        };
        let stamp = if scaled >= bumped {
            scaled
        } else {
            bumped
        };
        let built = generate(id, delete, stamp);
        if built.is_ok() {
            self.last = stamp;
        }
        built
    }
}

impl Default for Generator {
    fn default() -> (g: Self)
        ensures
            g@ == 0,
    {
        Generator::new()
    }
}

} // verus!
