//! Laws of the identifier format and its protocol: what encoding, decoding,
//! the lifecycle, the canonical spelling, the generator and the commands
//! promise for every input.

use crate::binary64::{
    law_millis_monotone, law_rounds_to_nearest_millisecond, law_whole_millisecond_round_trip,
};
use crate::cli::{builds, is_request, member_str, ArgsView, Command};
use crate::machine::{dispatch_spec, field, lookup, str_field, Json, ReplyView};
use crate::text::{
    ascii_lower, ascii_lower_char, ascii_upper, ascii_upper_char, is_ascii_alnum, is_ascii_hex, trim,
};
use crate::ttid::{
    all_alnum, all_hex, base36, base36_value, canonical_spec, decode_spec, digit_char, digit_value,
    generate_spec, is_placeholder, is_ttid_spec, lemma_pow36_11, lemma_split_dash_len,
    matches_ttid_pattern, matches_uuid_pattern, next_stamp, placeholder, pow36, segment_millis,
    split_dash, Timestamps, TtidError, IMMUTABLE, INVALID_TIMESTAMP, INVALID_TTID,
    MAX_TIMESTAMP_MS, MIN_TIMESTAMP_MS,
};
use vstd::arithmetic::power2::lemma2_to64_rest;
use vstd::prelude::*;

verus! {

proof fn lemma_digit_round_trip(d: nat)
    requires
        d < 36,
    ensures
        digit_value(digit_char(d)) == d,
        is_ascii_alnum(digit_char(d)),
        ascii_upper_char(digit_char(d)) == digit_char(d),
        digit_char(d) != '-',
{
}

/// Encoding a value in base 36 and reading it back gives the value; the
/// digits are uppercase letters and digits.
pub proof fn law_base36_round_trip(v: nat)
    ensures
        base36_value(base36(v)) == v,
        all_alnum(base36(v)),
        ascii_upper(base36(v)) == base36(v),
        forall|i: int| 0 <= i < base36(v).len() ==> #[trigger] base36(v)[i] != '-',
    decreases v,
{
    if v < 36 {
        lemma_digit_round_trip(v);
        let s = base36(v);
        assert(s.drop_last() =~= Seq::<char>::empty());
        assert(base36_value(s) == base36_value(s.drop_last()) * 36 + digit_value(s.last()));
        assert(ascii_upper(s) =~= s);
    } else {
        law_base36_round_trip(v / 36);
        lemma_digit_round_trip(v % 36);
        let prefix = base36(v / 36);
        let s = base36(v);
        assert(s.drop_last() =~= prefix);
        assert(s.last() == digit_char(v % 36));
        assert(base36_value(s) == base36_value(prefix) * 36 + digit_value(s.last()));
        assert(base36_value(s) == v);
        assert(ascii_upper(s) =~= s) by {
            assert forall|i: int| 0 <= i < s.len() implies #[trigger] ascii_upper(s)[i] == s[i] by {
                if i < prefix.len() {
                    assert(ascii_upper(prefix)[i] == prefix[i]);
                }
            }
        }
    }
}

/// A string without `-` is a single segment.
pub proof fn lemma_split_without_dash(s: Seq<char>)
    requires
        forall|i: int| 0 <= i < s.len() ==> #[trigger] s[i] != '-',
    ensures
        split_dash(s) == seq![s],
    decreases s.len(),
{
    if s.len() > 0 {
        lemma_split_without_dash(s.drop_last());
        assert(s.drop_last().push(s.last()) =~= s);
        assert(split_dash(s) =~= seq![s]);
    } else {
        assert(s =~= Seq::<char>::empty());
    }
}

/// Joining with a `-` joins the segment lists.
pub proof fn lemma_split_join(a: Seq<char>, b: Seq<char>)
    ensures
        split_dash(a + seq!['-'] + b) == split_dash(a) + split_dash(b),
    decreases b.len(),
{
    let ab = a + seq!['-'] + b;
    if b.len() == 0 {
        assert((a + seq!['-'] + b).drop_last() =~= a);
        assert(split_dash(b) =~= seq![Seq::<char>::empty()]);
        assert(split_dash(ab) =~= split_dash(a) + split_dash(b));
    } else {
        let b0 = b.drop_last();
        lemma_split_join(a, b0);
        lemma_split_dash_len(b0);
        lemma_split_dash_len(a);
        assert(ab.drop_last() =~= a + seq!['-'] + b0);
        assert(ab.last() == b.last());
        assert(split_dash(ab) =~= split_dash(a) + split_dash(b));
    }
}

/// The total length of segments joined by dashes, plus one.
pub open spec fn joined_len(segs: Seq<Seq<char>>) -> nat
    decreases segs.len(),
{
    if segs.len() == 0 {
        0
    } else {
        joined_len(segs.drop_last()) + segs.last().len() + 1
    }
}

proof fn lemma_split_joined_len(s: Seq<char>)
    ensures
        joined_len(split_dash(s)) == s.len() + 1,
    decreases s.len(),
{
    if s.len() > 0 {
        lemma_split_joined_len(s.drop_last());
        lemma_split_dash_len(s.drop_last());
        let prev = split_dash(s.drop_last());
        assert(joined_len(prev) == joined_len(prev.drop_last()) + prev.last().len() + 1);
        if s.last() != '-' {
            let next = prev.update(prev.len() - 1, prev.last().push(s.last()));
            assert(next.drop_last() =~= prev.drop_last());
            assert(next.last() == prev.last().push(s.last()));
            assert(joined_len(next) == joined_len(next.drop_last()) + next.last().len() + 1);
        } else {
            let next = prev.push(Seq::<char>::empty());
            assert(next.drop_last() =~= prev);
            assert(joined_len(next) == joined_len(next.drop_last()) + next.last().len() + 1);
        }
    } else {
        let segs = split_dash(s);
        assert(segs.drop_last() =~= Seq::<Seq<char>>::empty());
        assert(joined_len(segs) == joined_len(segs.drop_last()) + segs.last().len() + 1);
    }
}

/// A TTID is at most 35 characters long: three segments of eleven and two
/// dashes.
pub proof fn law_ttid_is_at_most_35_chars(s: Seq<char>)
    requires
        matches_ttid_pattern(s),
    ensures
        s.len() <= 35,
{
    lemma_split_joined_len(s);
    let segs = split_dash(s);
    reveal_with_fuel(joined_len, 4);
    if segs.len() >= 2 {
        assert(1 <= segs[1].len() <= 11);
    }
    if segs.len() == 3 {
        assert(1 <= segs[2].len() <= 11);
        assert(segs.drop_last().drop_last().drop_last() =~= Seq::<Seq<char>>::empty());
    } else if segs.len() == 2 {
        assert(segs.drop_last().drop_last() =~= Seq::<Seq<char>>::empty());
    } else {
        assert(segs.drop_last() =~= Seq::<Seq<char>>::empty());
    }
}

/// Nothing is both a TTID and a UUID.
pub proof fn law_ttid_is_never_a_uuid(s: Seq<char>)
    ensures
        !(matches_ttid_pattern(s) && matches_uuid_pattern(s)),
{
}

/// `f` changes letter case at most: it keeps dashes, letters and digits, and
/// the value of every base-36 digit.
pub open spec fn case_only(f: spec_fn(char) -> char) -> bool {
    forall|c: char|
        #![trigger f(c)]
        (f(c) == '-') == (c == '-') && is_ascii_alnum(f(c)) == is_ascii_alnum(c) && digit_value(f(c))
            == digit_value(c)
}

proof fn lemma_split_map(s: Seq<char>, f: spec_fn(char) -> char)
    requires
        case_only(f),
    ensures
        split_dash(s.map_values(f)) == split_dash(s).map_values(|seg: Seq<char>| seg.map_values(f)),
    decreases s.len(),
{
    let t = s.map_values(f);
    let e = Seq::<char>::empty();
    assert(e.map_values(f) =~= e);
    if s.len() == 0 {
        assert(t =~= e);
        assert(split_dash(t) =~= split_dash(s).map_values(|seg: Seq<char>| seg.map_values(f)));
    } else {
        lemma_split_map(s.drop_last(), f);
        lemma_split_dash_len(s.drop_last());
        assert(t.drop_last() =~= s.drop_last().map_values(f));
        assert(t.last() == f(s.last()));
        let prev = split_dash(s.drop_last());
        let mprev = prev.map_values(|seg: Seq<char>| seg.map_values(f));
        assert(split_dash(t.drop_last()) == mprev);
        if s.last() == '-' {
            assert(f(s.last()) == '-');
            assert(split_dash(t) == mprev.push(e));
            assert(split_dash(s) == prev.push(e));
            assert(split_dash(t) =~= split_dash(s).map_values(|seg: Seq<char>| seg.map_values(f)));
        } else {
            assert(prev.last().push(s.last()).map_values(f) =~= prev.last().map_values(f).push(
                f(s.last()),
            ));
            assert(split_dash(t) =~= split_dash(s).map_values(|seg: Seq<char>| seg.map_values(f)));
        }
    }
}

proof fn lemma_value_map(s: Seq<char>, f: spec_fn(char) -> char)
    requires
        case_only(f),
    ensures
        base36_value(s.map_values(f)) == base36_value(s),
        all_alnum(s.map_values(f)) == all_alnum(s),
    decreases s.len(),
{
    let t = s.map_values(f);
    if s.len() > 0 {
        lemma_value_map(s.drop_last(), f);
        assert(t.drop_last() =~= s.drop_last().map_values(f));
        assert(t.last() == f(s.last()));
    }
    if all_alnum(s) {
        assert forall|i: int| 0 <= i < t.len() implies is_ascii_alnum(#[trigger] t[i]) by {
            assert(is_ascii_alnum(s[i]));
            assert(t[i] == f(s[i]));
        }
    }
    if all_alnum(t) {
        assert forall|i: int| 0 <= i < s.len() implies is_ascii_alnum(#[trigger] s[i]) by {
            assert(is_ascii_alnum(t[i]));
            assert(t[i] == f(s[i]));
        }
    }
}

proof fn lemma_segment_map(seg: Seq<char>, f: spec_fn(char) -> char)
    requires
        case_only(f),
    ensures
        segment_millis(seg.map_values(f)) == segment_millis(seg),
        all_alnum(seg.map_values(f)) == all_alnum(seg),
        seg.map_values(f).len() == seg.len(),
{
    lemma_value_map(seg, f);
}

/// Decoding does not see a change of letter case, as long as the placeholder
/// slot keeps its meaning.
pub proof fn lemma_decode_map(s: Seq<char>, f: spec_fn(char) -> char)
    requires
        case_only(f),
        split_dash(s).len() >= 2 ==> (is_placeholder(split_dash(s)[1]) == is_placeholder(
            split_dash(s)[1].map_values(f),
        )),
    ensures
        decode_spec(s.map_values(f)) == decode_spec(s),
{
    lemma_split_map(s, f);
    lemma_split_dash_len(s);
    let segs = split_dash(s);
    let mapped = split_dash(s.map_values(f));
    assert forall|j: int| 0 <= j < segs.len() implies {
        &&& #[trigger] mapped[j] == segs[j].map_values(f)
        &&& mapped[j].len() == segs[j].len()
        &&& all_alnum(mapped[j]) == all_alnum(segs[j])
        &&& segment_millis(mapped[j]) == segment_millis(segs[j])
    } by {
        lemma_segment_map(segs[j], f);
    }
    assert(matches_ttid_pattern(s.map_values(f)) == matches_ttid_pattern(s));
}

/// A change of case that sends `x` and `X` to `x` or `X`, and nothing else
/// there, keeps a segment's placeholder status.
proof fn lemma_placeholder_map(seg: Seq<char>, f: spec_fn(char) -> char)
    requires
        forall|c: char| #![trigger f(c)] (f(c) == 'x' || f(c) == 'X') == (c == 'x' || c == 'X'),
    ensures
        is_placeholder(seg.map_values(f)) == is_placeholder(seg),
{
    let m = seg.map_values(f);
    if is_placeholder(seg) {
        assert(seg.len() == 1);
        assert(m[0] == f(seg[0]));
        assert(m =~= seq![f(seg[0])]);
    }
    if is_placeholder(m) {
        assert(m.len() == 1);
        assert(seg.len() == 1);
        assert(m[0] == f(seg[0]));
        assert(seg =~= seq![seg[0]]);
    }
}

/// Decoding ignores letter case: the uppercase spelling of any string
/// decodes exactly as the string does.
pub proof fn law_decode_ignores_uppercasing(s: Seq<char>)
    ensures
        decode_spec(ascii_upper(s)) == decode_spec(s),
{
    let f = |c: char| ascii_upper_char(c);
    assert(ascii_upper(s) =~= s.map_values(f));
    if split_dash(s).len() >= 2 {
        lemma_placeholder_map(split_dash(s)[1], f);
    }
    lemma_decode_map(s, f);
}

/// Decoding ignores letter case: the lowercase spelling of any string
/// decodes exactly as the string does.
pub proof fn law_decode_ignores_lowercasing(s: Seq<char>)
    ensures
        decode_spec(ascii_lower(s)) == decode_spec(s),
{
    let f = |c: char| ascii_lower_char(c);
    assert(ascii_lower(s) =~= s.map_values(f));
    if split_dash(s).len() >= 2 {
        lemma_placeholder_map(split_dash(s)[1], f);
    }
    lemma_decode_map(s, f);
}

/// A hexadecimal digit is exactly an ASCII letter or digit whose base-36
/// value is below sixteen: `0-9`, `a-f` and `A-F`.
pub proof fn law_hex_digits_are_the_first_sixteen(c: char)
    ensures
        is_ascii_hex(c) == (is_ascii_alnum(c) && digit_value(c) < 16),
{
}

proof fn lemma_hex_map(seg: Seq<char>, f: spec_fn(char) -> char)
    requires
        case_only(f),
    ensures
        all_hex(seg.map_values(f)) == all_hex(seg),
        seg.map_values(f).len() == seg.len(),
{
    let m = seg.map_values(f);
    assert forall|i: int| 0 <= i < seg.len() implies is_ascii_hex(#[trigger] m[i]) == is_ascii_hex(
        seg[i],
    ) by {
        assert(m[i] == f(seg[i]));
        law_hex_digits_are_the_first_sixteen(m[i]);
        law_hex_digits_are_the_first_sixteen(seg[i]);
    }
    if all_hex(seg) {
        assert forall|i: int| 0 <= i < m.len() implies is_ascii_hex(#[trigger] m[i]) by {
            assert(is_ascii_hex(seg[i]));
        }
    }
    if all_hex(m) {
        assert forall|i: int| 0 <= i < seg.len() implies is_ascii_hex(#[trigger] seg[i]) by {
            assert(is_ascii_hex(m[i]));
        }
    }
}

proof fn lemma_uuid_map(s: Seq<char>, f: spec_fn(char) -> char)
    requires
        case_only(f),
    ensures
        matches_uuid_pattern(s.map_values(f)) == matches_uuid_pattern(s),
{
    lemma_split_map(s, f);
    lemma_split_dash_len(s);
    let segs = split_dash(s);
    let mapped = split_dash(s.map_values(f));
    assert forall|j: int| 0 <= j < segs.len() implies {
        &&& #[trigger] mapped[j] == segs[j].map_values(f)
        &&& mapped[j].len() == segs[j].len()
        &&& all_hex(mapped[j]) == all_hex(segs[j])
    } by {
        lemma_hex_map(segs[j], f);
    }
    if segs.len() == 5 {
        assert(all_hex(mapped[0]) == all_hex(segs[0]));
        assert(all_hex(mapped[1]) == all_hex(segs[1]));
        assert(all_hex(mapped[2]) == all_hex(segs[2]));
        assert(all_hex(mapped[3]) == all_hex(segs[3]));
        assert(all_hex(mapped[4]) == all_hex(segs[4]));
    }
}

/// UUID matching ignores letter case: a string, its uppercase and its
/// lowercase spellings are all UUIDs or none is.
pub proof fn law_uuid_ignores_case(s: Seq<char>)
    ensures
        matches_uuid_pattern(ascii_upper(s)) == matches_uuid_pattern(s),
        matches_uuid_pattern(ascii_lower(s)) == matches_uuid_pattern(s),
{
    let up = |c: char| ascii_upper_char(c);
    let low = |c: char| ascii_lower_char(c);
    assert(ascii_upper(s) =~= s.map_values(up));
    assert(ascii_lower(s) =~= s.map_values(low));
    lemma_uuid_map(s, up);
    lemma_uuid_map(s, low);
}

proof fn lemma_upper_concat(a: Seq<char>, b: Seq<char>)
    ensures
        ascii_upper(a + b) == ascii_upper(a) + ascii_upper(b),
{
    assert(ascii_upper(a + b) =~= ascii_upper(a) + ascii_upper(b));
}

proof fn lemma_upper_idempotent(a: Seq<char>)
    ensures
        ascii_upper(ascii_upper(a)) == ascii_upper(a),
{
    assert(ascii_upper(ascii_upper(a)) =~= ascii_upper(a));
}

/// Every identifier `generate` emits is in uppercase, whatever the case of
/// the id it was given.
pub proof fn law_generated_ids_are_uppercase(id: Option<Seq<char>>, delete: bool, v: nat)
    ensures
        generate_spec(id, delete, v) is Ok ==> ascii_upper(generate_spec(id, delete, v)->Ok_0)
            == generate_spec(id, delete, v)->Ok_0,
{
    law_base36_round_trip(v);
    let s = id.unwrap();
    let segs = split_dash(s);
    let enc = base36(v);
    let dash = seq!['-'];
    assert(ascii_upper(dash) =~= dash);
    assert(ascii_upper(placeholder()) =~= placeholder());
    lemma_split_dash_len(s);
    let created = ascii_upper(segs[0]);
    lemma_upper_idempotent(segs[0]);
    if segs.len() >= 2 {
        lemma_upper_idempotent(segs[1]);
    }
    let updated = if segs.len() >= 2 {
        ascii_upper(segs[1])
    } else {
        placeholder()
    };
    lemma_upper_concat(created, dash);
    lemma_upper_concat(created + dash, enc);
    lemma_upper_concat(created + dash, updated);
    lemma_upper_concat(created + dash + updated, dash);
    lemma_upper_concat(created + dash + updated + dash, enc);
}

/// `generate` does not see the letter case of the id it advances: any
/// spelling of a valid TTID gives the same answer as its uppercase one.
pub proof fn law_generate_ignores_case(s: Seq<char>, delete: bool, v: nat)
    requires
        is_ttid_spec(s) is Some,
    ensures
        generate_spec(Some(s), delete, v) == generate_spec(Some(ascii_upper(s)), delete, v),
{
    law_canonical_form(s);
    let u = ascii_upper(s);
    let f = |c: char| ascii_upper_char(c);
    assert(u =~= s.map_values(f));
    assert(u.len() == s.len());
    lemma_split_map(s, f);
    lemma_split_dash_len(s);
    let segs = split_dash(s);
    let usegs = split_dash(u);
    assert(usegs.len() == segs.len());
    assert(usegs[0] == segs[0].map_values(f));
    assert(segs[0].map_values(f) =~= ascii_upper(segs[0]));
    lemma_upper_idempotent(segs[0]);
    if segs.len() >= 2 {
        assert(usegs[1] == segs[1].map_values(f));
        assert(segs[1].map_values(f) =~= ascii_upper(segs[1]));
        lemma_upper_idempotent(segs[1]);
    }
}

/// The canonical spelling of a valid TTID is its uppercase: it decodes to the
/// same timestamps, is valid itself, and canonicalizing it again changes
/// nothing.
pub proof fn law_canonical_form(s: Seq<char>)
    requires
        is_ttid_spec(s) is Some,
    ensures
        canonical_spec(s) == Some(ascii_upper(s)),
        decode_spec(ascii_upper(s)) == decode_spec(s),
        is_ttid_spec(ascii_upper(s)) == is_ttid_spec(s),
        canonical_spec(ascii_upper(s)) == canonical_spec(s),
        ascii_upper(ascii_upper(s)) == ascii_upper(s),
{
    law_decode_ignores_uppercasing(s);
    let u = ascii_upper(s);
    assert(ascii_upper(u) =~= u);
}

proof fn lemma_base36_len(v: nat, n: nat)
    requires
        n == 0 || pow36(n) <= v,
        v < pow36(n + 1),
    ensures
        base36(v).len() == n + 1,
    decreases n,
{
    assert(pow36(n + 1) == 36 * pow36(n));
    if n > 0 {
        let p = pow36((n - 1) as nat);
        assert(pow36(n) == 36 * p);
        assert(p >= 1) by {
            crate::ttid::lemma_pow36_grows(0, (n - 1) as nat);
        }
        let w = v / 36;
        assert(p <= w && w < pow36(n)) by (nonlinear_arith)
            requires
                36 * p <= v,
                v < 36 * pow36(n),
                w == v / 36,
        ;
        lemma_base36_len(w, (n - 1) as nat);
    } else {
        assert(pow36(0) == 1);
    }
}

/// The stamps whose encoding has exactly eleven digits: `36^10 <= v < 36^11`,
/// a span covering every instant from 2020 to 2200.
pub open spec fn eleven_digit_stamp(v: nat) -> bool {
    pow36(10) <= v < pow36(11)
}

proof fn lemma_fresh_segment(v: nat)
    requires
        eleven_digit_stamp(v),
    ensures
        base36(v).len() == 11,
        all_alnum(base36(v)),
        ascii_upper(base36(v)) == base36(v),
        base36_value(base36(v)) == v,
        split_dash(base36(v)) == seq![base36(v)],
        base36(v) != placeholder(),
        !is_placeholder(base36(v)),
{
    assert(pow36(11) == 36 * pow36(10));
    lemma_base36_len(v, 10);
    law_base36_round_trip(v);
    lemma_split_without_dash(base36(v));
}

/// The decoded value of a well-formed segment in its own right.
pub open spec fn stamp_decodes_to(v: nat) -> Option<i64> {
    segment_millis(base36(v))
}

/// A new id is the eleven uppercase digits of its stamp, and decodes to that
/// stamp alone.
pub proof fn law_new_id(v: nat)
    requires
        eleven_digit_stamp(v),
    ensures
        generate_spec(None, false, v) == Ok::<Seq<char>, TtidError>(base36(v)),
        base36(v).len() == 11,
        ascii_upper(base36(v)) == base36(v),
        segment_millis(base36(v)) is Some ==> decode_spec(base36(v)) == Ok::<Timestamps, TtidError>(
            Timestamps { created_at: segment_millis(base36(v)).unwrap(), updated_at: None, deleted_at: None },
        ),
        segment_millis(base36(v)) is None ==> decode_spec(base36(v)) == Err::<Timestamps, TtidError>(
            TtidError(INVALID_TIMESTAMP),
        ),
{
    lemma_fresh_segment(v);
}

/// An id minted at a whole millisecond of 2020..=2200 decodes to exactly that
/// millisecond, and `is_ttid` reports it.
pub proof fn law_whole_millisecond_ids_decode(m: int)
    requires
        MIN_TIMESTAMP_MS <= m <= MAX_TIMESTAMP_MS,
    ensures
        ({
            let id = base36((10000 * m) as nat);
            &&& generate_spec(None, false, (10000 * m) as nat) == Ok::<Seq<char>, TtidError>(id)
            &&& id.len() == 11
            &&& decode_spec(id) == Ok::<Timestamps, TtidError>(
                Timestamps { created_at: m as i64, updated_at: None, deleted_at: None },
            )
            &&& is_ttid_spec(id) == Some(m as i64)
        }),
{
    let v = (10000 * m) as nat;
    lemma_pow36_11();
    assert(pow36(10) == 3656158440062976) by {
        reveal_with_fuel(pow36, 11);
    }
    lemma2_to64_rest();
    law_whole_millisecond_round_trip(m as nat);
    lemma_fresh_segment(v);
}

/// An id minted at any stamp of 2020..=2200 decodes to that stamp rounded to
/// the nearest millisecond, halves up, unless the stamp lies within 20 units
/// (2 µs) of a half millisecond, where binary64 rounding may pick either
/// neighbour.
pub proof fn law_ids_decode_to_the_nearest_millisecond(v: nat)
    requires
        10000 * MIN_TIMESTAMP_MS <= v <= 10000 * MAX_TIMESTAMP_MS,
        v % 10000 < 4980 || v % 10000 >= 5020,
    ensures
        ({
            let id = base36(v);
            &&& generate_spec(None, false, v) == Ok::<Seq<char>, TtidError>(id)
            &&& decode_spec(id) == Ok::<Timestamps, TtidError>(
                Timestamps {
                    created_at: ((v + 5000) / 10000) as i64,
                    updated_at: None,
                    deleted_at: None,
                },
            )
            &&& is_ttid_spec(id) == Some(((v + 5000) / 10000) as i64)
        }),
{
    lemma_pow36_11();
    assert(pow36(10) == 3656158440062976) by {
        reveal_with_fuel(pow36, 11);
    }
    lemma2_to64_rest();
    law_rounds_to_nearest_millisecond(v);
    lemma_fresh_segment(v);
}

/// The lifecycle of an identifier stamped `s1`, then `s2`, then `s3`: each
/// step appends one segment, a delete without an update keeps the `X`
/// placeholder in the update slot, every stage decodes to the stamps it
/// carries, and a deleted identifier cannot be advanced any further.
pub proof fn law_lifecycle(s1: nat, s2: nat, s3: nat)
    requires
        eleven_digit_stamp(s1),
        eleven_digit_stamp(s2),
        eleven_digit_stamp(s3),
        stamp_decodes_to(s1) is Some,
        stamp_decodes_to(s2) is Some,
        stamp_decodes_to(s3) is Some,
    ensures
        ({
            let created = base36(s1);
            let updated = created + seq!['-'] + base36(s2);
            let deleted = updated + seq!['-'] + base36(s3);
            let tombstone = created + seq!['-'] + placeholder() + seq!['-'] + base36(s2);
            let m1 = stamp_decodes_to(s1).unwrap();
            let m2 = stamp_decodes_to(s2).unwrap();
            let m3 = stamp_decodes_to(s3).unwrap();
            &&& generate_spec(None, false, s1) == Ok::<Seq<char>, TtidError>(created)
            &&& generate_spec(Some(created), false, s2) == Ok::<Seq<char>, TtidError>(updated)
            &&& generate_spec(Some(updated), true, s3) == Ok::<Seq<char>, TtidError>(deleted)
            &&& generate_spec(Some(updated), false, s3) == Ok::<Seq<char>, TtidError>(
                created + seq!['-'] + base36(s3),
            )
            &&& generate_spec(Some(created), true, s2) == Ok::<Seq<char>, TtidError>(tombstone)
            &&& decode_spec(created) == Ok::<Timestamps, TtidError>(
                Timestamps { created_at: m1, updated_at: None, deleted_at: None },
            )
            &&& decode_spec(updated) == Ok::<Timestamps, TtidError>(
                Timestamps { created_at: m1, updated_at: Some(m2), deleted_at: None },
            )
            &&& decode_spec(deleted) == Ok::<Timestamps, TtidError>(
                Timestamps { created_at: m1, updated_at: Some(m2), deleted_at: Some(m3) },
            )
            &&& decode_spec(tombstone) == Ok::<Timestamps, TtidError>(
                Timestamps { created_at: m1, updated_at: None, deleted_at: Some(m2) },
            )
            &&& forall|d: bool, v: nat|
                #![trigger generate_spec(Some(deleted), d, v)]
                #![trigger generate_spec(Some(tombstone), d, v)]
                generate_spec(Some(deleted), d, v) == Err::<Seq<char>, TtidError>(TtidError(IMMUTABLE))
                    && generate_spec(Some(tombstone), d, v) == Err::<Seq<char>, TtidError>(
                    TtidError(IMMUTABLE),
                )
        }),
{
    let created = base36(s1);
    let a = base36(s2);
    let b = base36(s3);
    lemma_fresh_segment(s1);
    lemma_fresh_segment(s2);
    lemma_fresh_segment(s3);
    let updated = created + seq!['-'] + a;
    let deleted = updated + seq!['-'] + b;
    let x = placeholder();
    let half = created + seq!['-'] + x;
    let tombstone = half + seq!['-'] + a;
    lemma_split_join(created, a);
    lemma_split_join(updated, b);
    lemma_split_join(created, b);
    lemma_split_without_dash(x);
    lemma_split_join(created, x);
    lemma_split_join(half, a);
    assert(split_dash(updated) =~= seq![created, a]);
    assert(split_dash(deleted) =~= seq![created, a, b]);
    assert(split_dash(half) =~= seq![created, x]);
    assert(split_dash(tombstone) =~= seq![created, x, a]);
    assert(updated.len() == 23);
    assert(deleted.len() == 35);
    assert(tombstone.len() == 25);
    assert(all_alnum(x)) by {
        assert(x[0] == 'X');
    }
    assert(decode_spec(created) is Ok);
    assert(decode_spec(updated) is Ok);
    assert(decode_spec(deleted) is Ok);
    assert(decode_spec(tombstone) is Ok);
    assert(created + seq!['-'] + x + seq!['-'] + a =~= tombstone);
}

/// The stages of a lifecycle stamped in order decode in order.
pub proof fn law_lifecycle_is_chronological(s1: nat, s2: nat, s3: nat)
    requires
        eleven_digit_stamp(s1),
        eleven_digit_stamp(s2),
        eleven_digit_stamp(s3),
        stamp_decodes_to(s1) is Some,
        stamp_decodes_to(s2) is Some,
        stamp_decodes_to(s3) is Some,
        s1 <= s2 <= s3,
    ensures
        stamp_decodes_to(s1).unwrap() <= stamp_decodes_to(s2).unwrap() <= stamp_decodes_to(
            s3,
        ).unwrap(),
{
    lemma_fresh_segment(s1);
    lemma_fresh_segment(s2);
    lemma_fresh_segment(s3);
    lemma_pow36_11();
    lemma2_to64_rest();
    law_millis_monotone(s1, s2);
    law_millis_monotone(s2, s3);
}

/// `a` sorts before `b` in byte (here: character) order, for strings of the
/// same length.
pub open spec fn sorts_before(a: Seq<char>, b: Seq<char>) -> bool {
    exists|i: int|
        0 <= i < a.len() && i < b.len() && a.subrange(0, i) == b.subrange(0, i) && #[trigger] a[i]
            < b[i]
}

proof fn lemma_digit_char_order(d1: nat, d2: nat)
    requires
        d1 < d2 < 36,
    ensures
        digit_char(d1) < digit_char(d2),
{
}

proof fn lemma_sorts_before_push(a: Seq<char>, b: Seq<char>, c1: char, c2: char)
    requires
        sorts_before(a, b),
        a.len() == b.len(),
    ensures
        sorts_before(a.push(c1), b.push(c2)),
{
    let i = choose|i: int|
        0 <= i < a.len() && i < b.len() && a.subrange(0, i) == b.subrange(0, i) && #[trigger] a[i]
            < b[i];
    assert(a.push(c1).subrange(0, i) =~= a.subrange(0, i));
    assert(b.push(c2).subrange(0, i) =~= b.subrange(0, i));
    assert(a.push(c1)[i] == a[i]);
    assert(b.push(c2)[i] == b[i]);
}

proof fn lemma_base36_sorts(v1: nat, v2: nat, n: nat)
    requires
        n == 0 || pow36(n) <= v1,
        v1 < v2 < pow36(n + 1),
    ensures
        sorts_before(base36(v1), base36(v2)),
        base36(v1).len() == base36(v2).len(),
    decreases n,
{
    lemma_base36_len(v1, n);
    lemma_base36_len(v2, n);
    assert(pow36(n + 1) == 36 * pow36(n));
    if n == 0 {
        assert(pow36(0) == 1);
        lemma_digit_char_order(v1, v2);
        let a = base36(v1);
        let b = base36(v2);
        assert(a.subrange(0, 0) =~= b.subrange(0, 0));
        assert(a[0] < b[0]);
    } else {
        let p = pow36((n - 1) as nat);
        assert(pow36(n) == 36 * p);
        assert(p >= 1) by {
            crate::ttid::lemma_pow36_grows(0, (n - 1) as nat);
        }
        let q1 = v1 / 36;
        let q2 = v2 / 36;
        assert(p <= q1 && q1 <= q2 && q2 < pow36(n)) by (nonlinear_arith)
            requires
                36 * p <= v1,
                v1 < v2,
                v2 < 36 * pow36(n),
                q1 == v1 / 36,
                q2 == v2 / 36,
        ;
        let a = base36(v1);
        let b = base36(v2);
        lemma_base36_len(q1, (n - 1) as nat);
        lemma_base36_len(q2, (n - 1) as nat);
        if q1 < q2 {
            lemma_base36_sorts(q1, q2, (n - 1) as nat);
            lemma_sorts_before_push(base36(q1), base36(q2), digit_char(v1 % 36), digit_char(v2 % 36));
        } else {
            assert(v1 % 36 < v2 % 36);
            lemma_digit_char_order(v1 % 36, v2 % 36);
            let i = (a.len() - 1) as int;
            assert(a.subrange(0, i) =~= base36(q1));
            assert(b.subrange(0, i) =~= base36(q2));
            assert(a[i] < b[i]);
        }
    }
}

/// Ids minted at increasing stamps sort in the same order as strings: byte
/// order is creation order.
pub proof fn law_ids_sort_by_stamp(v1: nat, v2: nat)
    requires
        eleven_digit_stamp(v1),
        eleven_digit_stamp(v2),
        v1 < v2,
    ensures
        sorts_before(base36(v1), base36(v2)),
{
    assert(pow36(11) == 36 * pow36(10));
    lemma_base36_sorts(v1, v2, 10);
}

/// Two ids issued in turn by one generator carry strictly increasing stamps,
/// whatever the clock said, so they differ and sort in issue order.
pub proof fn law_generator_ids_increase(last: nat, clock1: nat, clock2: nat)
    requires
        eleven_digit_stamp(next_stamp(last, clock1)),
        eleven_digit_stamp(next_stamp(next_stamp(last, clock1), clock2)),
    ensures
        ({
            let first = next_stamp(last, clock1);
            let second = next_stamp(first, clock2);
            &&& last < first < second
            &&& sorts_before(base36(first), base36(second))
            &&& base36(first) != base36(second)
        }),
{
    let first = next_stamp(last, clock1);
    let second = next_stamp(first, clock2);
    lemma_pow36_11();
    lemma2_to64_rest();
    assert(first < u128::MAX);
    law_ids_sort_by_stamp(first, second);
    law_base36_round_trip(first);
    law_base36_round_trip(second);
}

/// A generator's last stamp after its successful calls saw the clock
/// readings `clocks` in turn, starting from `last` (a rejected call leaves
/// the stamp as it was, so only successful calls count).
pub open spec fn stamp_after(last: nat, clocks: Seq<nat>) -> nat
    decreases clocks.len(),
{
    if clocks.len() == 0 {
        last
    } else {
        next_stamp(stamp_after(last, clocks.drop_last()), clocks.last())
    }
}

proof fn lemma_stamp_after_bound(last: nat, clocks: Seq<nat>)
    requires
        last < pow36(11),
        forall|i: int| 0 <= i < clocks.len() ==> #[trigger] clocks[i] < pow36(11),
    ensures
        stamp_after(last, clocks) < pow36(11) + clocks.len(),
    decreases clocks.len(),
{
    if clocks.len() > 0 {
        let prefix = clocks.drop_last();
        assert forall|i: int| 0 <= i < prefix.len() implies #[trigger] prefix[i] < pow36(11) by {
            assert(prefix[i] == clocks[i]);
        }
        lemma_stamp_after_bound(last, prefix);
        assert(clocks.last() == clocks[clocks.len() - 1]);
    }
}

proof fn lemma_stamp_after_step(last: nat, clocks: Seq<nat>, k: int)
    requires
        last < pow36(11),
        clocks.len() <= pow36(11),
        forall|i: int| 0 <= i < clocks.len() ==> #[trigger] clocks[i] < pow36(11),
        0 <= k < clocks.len(),
    ensures
        stamp_after(last, clocks.take(k)) < stamp_after(last, clocks.take(k + 1)),
{
    let before = clocks.take(k);
    assert forall|i: int| 0 <= i < before.len() implies #[trigger] before[i] < pow36(11) by {
        assert(before[i] == clocks[i]);
    }
    lemma_stamp_after_bound(last, before);
    lemma_pow36_11();
    assert(clocks.take(k + 1).drop_last() =~= before);
}

/// Every successful call of one generator issues a stamp above all the
/// stamps it issued before, whatever the clock said in between: stamps (and
/// so ids) are never issued twice and rise in issue order.
pub proof fn law_generator_stamps_strictly_increase(last: nat, clocks: Seq<nat>)
    requires
        last < pow36(11),
        clocks.len() <= pow36(11),
        forall|i: int| 0 <= i < clocks.len() ==> #[trigger] clocks[i] < pow36(11),
    ensures
        forall|i: int, j: int|
            0 <= i < j <= clocks.len() ==> #[trigger] stamp_after(last, clocks.take(i))
                < #[trigger] stamp_after(last, clocks.take(j)),
{
    assert forall|i: int, j: int| 0 <= i < j <= clocks.len() implies #[trigger] stamp_after(
        last,
        clocks.take(i),
    ) < #[trigger] stamp_after(last, clocks.take(j)) by {
        lemma_stamp_chain(last, clocks, i, j);
    }
}

proof fn lemma_stamp_chain(last: nat, clocks: Seq<nat>, i: int, j: int)
    requires
        last < pow36(11),
        clocks.len() <= pow36(11),
        forall|t: int| 0 <= t < clocks.len() ==> #[trigger] clocks[t] < pow36(11),
        0 <= i < j <= clocks.len(),
    ensures
        stamp_after(last, clocks.take(i)) < stamp_after(last, clocks.take(j)),
    decreases j - i,
{
    lemma_stamp_after_step(last, clocks, j - 1);
    if i < j - 1 {
        lemma_stamp_chain(last, clocks, i, j - 1);
    }
}

/// `s` ends with `t`.
pub open spec fn ends_with(s: Seq<char>, t: Seq<char>) -> bool {
    t.len() <= s.len() && s.subrange(s.len() - t.len(), s.len() as int) == t
}

/// What a successful `generate` puts before the stamp's digits: nothing for
/// a new id, else the uppercase creation segment (and, when deleting, the
/// update segment or the placeholder), each followed by a dash.
spec fn generate_prefix(id: Option<Seq<char>>, delete: bool) -> Seq<char> {
    let s = id.unwrap();
    let valid = id is Some && s.len() > 0 && is_ttid_spec(s) is Some;
    let segs = split_dash(s);
    let created = ascii_upper(segs[0]);
    if !valid {
        Seq::empty()
    } else if delete {
        let updated = if segs.len() >= 2 {
            ascii_upper(segs[1])
        } else {
            placeholder()
        };
        created + seq!['-'] + updated + seq!['-']
    } else {
        created + seq!['-']
    }
}

/// A successful `generate` answer is the stamp's digits after a prefix that
/// depends on the id and the flag alone.
proof fn lemma_generate_suffix(id: Option<Seq<char>>, delete: bool, v: nat)
    ensures
        generate_spec(id, delete, v) is Ok ==> generate_spec(id, delete, v)->Ok_0 == generate_prefix(
            id,
            delete,
        ) + base36(v),
{
    assert(Seq::<char>::empty() + base36(v) =~= base36(v));
}

/// Two successful `generate` answers for the same id and flag are equal only
/// at equal stamps.
proof fn lemma_generate_injective(id: Option<Seq<char>>, delete: bool, a: nat, b: nat)
    requires
        generate_spec(id, delete, a) is Ok,
        generate_spec(id, delete, b) is Ok,
        generate_spec(id, delete, a) == generate_spec(id, delete, b),
    ensures
        a == b,
{
    lemma_generate_suffix(id, delete, a);
    lemma_generate_suffix(id, delete, b);
    law_base36_round_trip(a);
    law_base36_round_trip(b);
    let p = generate_prefix(id, delete);
    assert((p + base36(a)).skip(p.len() as int) =~= base36(a));
    assert((p + base36(b)).skip(p.len() as int) =~= base36(b));
}

/// A `generate` request through the protocol advances the caller's
/// generator: a success moves its stamp up, never below the clock, and the
/// id returned ends with the new stamp's digits; a failure leaves it as it
/// was.
pub proof fn law_protocol_generate_advances_the_generator(request: Json, scaled: nat, last: nat)
    requires
        str_field(request, "op"@) == Some("generate"@),
        last < u128::MAX,
    ensures
        ({
            let (r, after) = dispatch_spec(request, scaled, last);
            &&& r is Err ==> after == last
            &&& r is Ok ==> last < after && scaled <= after && (r->Ok_0 matches ReplyView::Id(id)
                && ends_with(id, base36(after)))
        }),
{
    let (r, after) = dispatch_spec(request, scaled, last);
    if r is Ok {
        let stamp = next_stamp(last, scaled);
        assert(after == stamp);
        match r->Ok_0 {
            ReplyView::Id(id) => {
                let rid = generate_spec(
                    crate::machine::generate_id_spec(request)->Ok_0,
                    field(request, "delete"@) == Some(Json::Bool(true)),
                    stamp,
                );
                lemma_generate_suffix(
                    crate::machine::generate_id_spec(request)->Ok_0,
                    field(request, "delete"@) == Some(Json::Bool(true)),
                    stamp,
                );
                let e = base36(stamp);
                let x = id.subrange(id.len() - e.len(), id.len() as int);
                assert(x =~= e);
            },
            _ => {},
        }
    }
}

/// Two `generate` requests through one generator never return the same id,
/// whatever the clock says for each.
pub proof fn law_protocol_never_repeats_an_id(request: Json, clock1: nat, clock2: nat, last: nat)
    requires
        str_field(request, "op"@) == Some("generate"@),
        last < pow36(11),
        clock1 < pow36(11),
    ensures
        ({
            let (r1, after1) = dispatch_spec(request, clock1, last);
            let (r2, after2) = dispatch_spec(request, clock2, after1);
            r1 is Ok && r2 is Ok ==> r1 != r2
        }),
{
    lemma_pow36_11();
    let (r1, after1) = dispatch_spec(request, clock1, last);
    let (r2, after2) = dispatch_spec(request, clock2, after1);
    if r1 is Ok && r2 is Ok && r1 == r2 {
        let id = crate::machine::generate_id_spec(request)->Ok_0;
        let delete = field(request, "delete"@) == Some(Json::Bool(true));
        assert(after1 == next_stamp(last, clock1));
        assert(after1 < u128::MAX);
        assert(after2 == next_stamp(after1, clock2));
        lemma_generate_injective(id, delete, after1, after2);
    }
}

/// The request `{"op": op, "id": id}` reads back its operation and its id.
proof fn lemma_request_fields(j: Json, op: Seq<char>, id: Seq<char>)
    requires
        is_request(j, op, Some(id), false),
    ensures
        j is Object,
        str_field(j, "op"@) == Some(op),
        str_field(j, "id"@) == Some(id),
{
    reveal_strlit("op");
    reveal_strlit("id");
    match j {
        Json::Object(ms) => {
            let s = ms@;
            assert(s.len() == 2);
            assert(member_str(s[0], "op"@, op));
            assert(member_str(s[1], "id"@, id));
            assert(s[0].key@ == "op"@);
            assert(s[0].key@ != "id"@) by {
                assert(s[0].key@[0] == 'o');
            }
            assert(s.drop_first()[0] == s[1]);
            assert(lookup(s.drop_first(), "id"@) == Some(s[1].value));
            assert(lookup(s, "id"@) == Some(s[1].value));
            assert(lookup(s, "op"@) == Some(s[0].value));
        },
        _ => {},
    }
}

/// Each command that takes an id asks the kernel its own question about
/// that id: `decode` decodes it, `validate` validates it, `canonicalize`
/// canonicalizes it and `uuid` checks it for a UUID, and the generator is
/// left alone.
pub proof fn law_id_commands_ask_the_kernel(
    a: ArgsView,
    r: Result<Command, String>,
    scaled: nat,
    last: nat,
)
    requires
        builds(a, r),
        a.positionals.len() >= 2,
        trim(a.positionals[1]).len() > 0,
    ensures
        ({
            let command = a.positionals[0];
            let id = a.positionals[1];
            &&& command == "decode"@ ==> (r matches Ok(Command::Request(j)) && dispatch_spec(
                j,
                scaled,
                last,
            ) == (
                match decode_spec(id) {
                    Ok(t) => Ok(ReplyView::Times(t)),
                    Err(e) => Err(e.0@),
                },
                last,
            ))
            &&& command == "validate"@ ==> (r matches Ok(Command::Request(j)) && dispatch_spec(
                j,
                scaled,
                last,
            ) == (
                Ok::<ReplyView, Seq<char>>(
                    ReplyView::Validation {
                        valid: is_ttid_spec(id) is Some,
                        created_at: is_ttid_spec(id),
                    },
                ),
                last,
            ))
            &&& command == "canonicalize"@ ==> (r matches Ok(Command::Request(j)) && dispatch_spec(
                j,
                scaled,
                last,
            ) == (
                match canonical_spec(id) {
                    Some(c) => Ok(ReplyView::Id(c)),
                    None => Err(INVALID_TTID@),
                },
                last,
            ))
            &&& command == "uuid"@ ==> (r matches Ok(Command::Request(j)) && dispatch_spec(
                j,
                scaled,
                last,
            ) == (Ok::<ReplyView, Seq<char>>(ReplyView::Uuid { valid: matches_uuid_pattern(id) }), last))
        }),
{
    reveal_strlit("exec");
    reveal_strlit("generate");
    reveal_strlit("decode");
    reveal_strlit("validate");
    reveal_strlit("canonicalize");
    reveal_strlit("uuid");
    reveal_strlit("decodeTime");
    reveal_strlit("isTTID");
    reveal_strlit("isUUID");
    let command = a.positionals[0];
    let id = a.positionals[1];
    let op = crate::cli::id_command_op(command);
    assert("decode"@[0] == 'd' && "validate"@[0] == 'v' && "canonicalize"@[0] == 'c'
        && "uuid"@[0] == 'u');
    assert("decode"@ != "validate"@ && "decode"@ != "canonicalize"@ && "decode"@ != "uuid"@
        && "validate"@ != "canonicalize"@ && "validate"@ != "uuid"@ && "canonicalize"@
        != "uuid"@);
    if op is Some {
        assert(command != "exec"@) by {
            if command == "exec"@ {
                assert(command[0] == 'e');
            }
        }
        assert(command != "generate"@) by {
            if command == "generate"@ {
                assert(command[0] == 'g');
            }
        }
        assert(Some(command) != Some("exec"@));
        assert(Some(command) != Some("generate"@));
        let o = op.unwrap();
        match r {
            Ok(Command::Request(j)) => {
                lemma_request_fields(j, o, id);
                assert(crate::machine::require_string_spec(j, "id"@) == Ok::<Seq<char>, Seq<char>>(
                    id,
                ));
                if command == "decode"@ {
                    assert(o == "decodeTime"@);
                    assert(o != "generate"@) by {
                        assert(o[0] == 'd');
                    }
                } else if command == "validate"@ {
                    assert(command != "decode"@) by {
                        assert(command[0] == 'v');
                    }
                    assert(o == "isTTID"@);
                    assert(o != "generate"@) by {
                        assert(o[0] == 'i');
                    }
                    assert(o != "decodeTime"@) by {
                        assert(o[0] == 'i');
                    }
                } else if command == "canonicalize"@ {
                    assert(command != "decode"@) by {
                        assert(command[0] == 'c');
                    }
                    assert(command != "validate"@) by {
                        assert(command[0] == 'c');
                    }
                    assert(o == "canonicalize"@);
                    assert(o != "generate"@) by {
                        assert(o[0] == 'c');
                    }
                    assert(o != "decodeTime"@) by {
                        assert(o[0] == 'c');
                    }
                    assert(o != "isTTID"@) by {
                        assert(o[0] == 'c');
                    }
                } else if command == "uuid"@ {
                    assert(command != "decode"@) by {
                        assert(command[0] == 'u');
                    }
                    assert(command != "validate"@) by {
                        assert(command[0] == 'u');
                    }
                    assert(command != "canonicalize"@) by {
                        assert(command[0] == 'u');
                    }
                    assert(o == "isUUID"@);
                    assert(o != "generate"@) by {
                        assert(o[0] == 'i');
                    }
                    assert(o != "decodeTime"@) by {
                        assert(o[0] == 'i');
                    }
                    assert(o != "isTTID"@) by {
                        assert(o[2] == 'U');
                    }
                    assert(o != "canonicalize"@) by {
                        assert(o[0] == 'i');
                    }
                }
            },
            _ => {},
        }
    }
}

/// The `generate` request `{"op": "generate", "id": id?, "delete": true?}`
/// reads back its operation, its id and its flag.
proof fn lemma_generate_request_fields(j: Json, id: Option<Seq<char>>, delete: bool)
    requires
        is_request(j, "generate"@, id, delete),
    ensures
        j is Object,
        str_field(j, "op"@) == Some("generate"@),
        id is Some ==> (field(j, "id"@) matches Some(Json::Str(s)) && s@ == id.unwrap()),
        id is None ==> field(j, "id"@) is None,
        field(j, "delete"@) == if delete {
            Some(Json::Bool(true))
        } else {
            None
        },
{
    reveal_strlit("op");
    reveal_strlit("id");
    reveal_strlit("delete");
    assert("op"@ != "id"@ && "op"@ != "delete"@ && "id"@ != "delete"@) by {
        assert("op"@[0] == 'o' && "id"@[0] == 'i' && "delete"@[0] == 'd');
    }
    reveal_with_fuel(lookup, 4);
    match j {
        Json::Object(ms) => {
            let s = ms@;
            assert(s[0].key@ == "op"@);
            if id is Some {
                assert(s[1].key@ == "id"@);
                assert(s.drop_first()[0] == s[1]);
                if delete {
                    assert(s.len() == 3);
                    assert(s[2].key@ == "delete"@);
                    assert(s.drop_first().drop_first()[0] == s[2]);
                    assert(s.drop_first().drop_first().drop_first().len() == 0);
                } else {
                    assert(s.len() == 2);
                    assert(s.drop_first().drop_first().len() == 0);
                }
            } else {
                if delete {
                    assert(s.len() == 2);
                    assert(s[1].key@ == "delete"@);
                    assert(s.drop_first()[0] == s[1]);
                    assert(s.drop_first().drop_first().len() == 0);
                } else {
                    assert(s.len() == 1);
                    assert(s.drop_first().len() == 0);
                }
            }
        },
        _ => {},
    }
}

/// `ttid generate [id] [--delete]` asks the generator for exactly that: the
/// id given (if any) advanced, deleted when asked, at the generator's next
/// stamp, which it then keeps.
pub proof fn law_generate_command_asks_the_generator(
    a: ArgsView,
    r: Result<Command, String>,
    scaled: nat,
    last: nat,
)
    requires
        builds(a, r),
        a.positionals.len() >= 1,
        a.positionals[0] == "generate"@,
        a.positionals.len() >= 2 ==> a.positionals[1].len() > 0,
    ensures
        ({
            let id = if a.positionals.len() >= 2 {
                Some(a.positionals[1])
            } else {
                None
            };
            let stamp = next_stamp(last, scaled);
            !(a.delete && id is None) ==> (r matches Ok(Command::Request(j)) && dispatch_spec(
                j,
                scaled,
                last,
            ) == match generate_spec(id, a.delete, stamp) {
                Ok(s) => (Ok(ReplyView::Id(s)), stamp),
                Err(e) => (Err(e.0@), last),
            })
        }),
{
    reveal_strlit("exec");
    reveal_strlit("generate");
    assert("generate"@ != "exec"@) by {
        assert("generate"@[0] == 'g');
    }
    let id = if a.positionals.len() >= 2 {
        Some(a.positionals[1])
    } else {
        None
    };
    if !(a.delete && id is None) {
        match r {
            Ok(Command::Request(j)) => {
                lemma_generate_request_fields(j, id, a.delete);
            },
            _ => {},
        }
    }
}

/// `generate` refuses to advance a deleted identifier, with or without the
/// delete flag, and refuses anything non-empty that is not a TTID; an empty
/// id asks for a new one.
pub proof fn law_generate_refusals(id: Seq<char>, delete: bool, v: nat)
    ensures
        is_ttid_spec(id) is Some && split_dash(id).len() == 3 ==> generate_spec(Some(id), delete, v)
            == Err::<Seq<char>, TtidError>(TtidError(IMMUTABLE)),
        id.len() > 0 && is_ttid_spec(id) is None ==> generate_spec(Some(id), delete, v) == Err::<
            Seq<char>,
            TtidError,
        >(TtidError(INVALID_TTID)),
        id.len() == 0 ==> generate_spec(Some(id), delete, v) == Ok::<Seq<char>, TtidError>(
            base36(v),
        ),
        generate_spec(None, delete, v) == Ok::<Seq<char>, TtidError>(base36(v)),
{
}

} // verus!
