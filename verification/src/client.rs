//! The client side of the NDJSON loop: the request lines a client sends and
//! how it reads the answer. Spawning the process and moving the lines is the
//! transport's part.

use crate::text::{chars_of, push_char};
use vstd::prelude::*;

verus! {

/// The lowercase hex digit for `d < 16`.
pub open spec fn hex_digit(d: nat) -> char {
    if d < 10 {
        (d + 48) as char
    } else {
        (d + 87) as char
    }
}

/// The JSON string-literal spelling of one character.
pub open spec fn escape_char(c: char) -> Seq<char> {
    if c == '"' {
        seq!['\\', '"']
    } else if c == '\\' {
        seq!['\\', '\\']
    } else if c == '\n' {
        seq!['\\', 'n']
    } else if c == '\r' {
        seq!['\\', 'r']
    } else if c == '\t' {
        seq!['\\', 't']
    } else if (c as u32) < 0x20 {
        seq!['\\', 'u', '0', '0', hex_digit((c as u32 / 16) as nat), hex_digit((c as u32 % 16) as nat)]
    } else {
        seq![c]
    }
}

/// `s` escaped for embedding in a JSON string literal.
pub open spec fn escape(s: Seq<char>) -> Seq<char>
    decreases s.len(),
{
    if s.len() == 0 {
        Seq::empty()
    } else {
        escape(s.drop_last()) + escape_char(s.last())
    }
}

/// The value of a hexadecimal digit, in either case.
pub open spec fn hex_value(c: char) -> Option<nat> {
    if '0' <= c && c <= '9' {
        Some((c as int - 48) as nat)
    } else if 'a' <= c && c <= 'f' {
        Some((c as int - 87) as nat)
    } else if 'A' <= c && c <= 'F' {
        Some((c as int - 55) as nat)
    } else {
        None
    }
}

/// The character a one-letter JSON escape (`\"`, `\n`, ...) stands for.
pub open spec fn simple_escape(e: char) -> Option<char> {
    if e == '"' {
        Some('"')
    } else if e == '\\' {
        Some('\\')
    } else if e == '/' {
        Some('/')
    } else if e == 'b' {
        Some('\u{8}')
    } else if e == 'f' {
        Some('\u{c}')
    } else if e == 'n' {
        Some('\n')
    } else if e == 'r' {
        Some('\r')
    } else if e == 't' {
        Some('\t')
    } else {
        None
    }
}

/// `c` in front of a decoded rest, when the rest decoded.
pub open spec fn cons_decoded(c: char, rest: Option<Seq<char>>) -> Option<Seq<char>> {
    match rest {
        Some(t) => Some(seq![c] + t),
        None => None,
    }
}

/// The code point of the four hex digits `s[2..6]` after `\u`.
pub open spec fn unicode_escape_value(s: Seq<char>) -> Option<nat> {
    match (hex_value(s[2]), hex_value(s[3]), hex_value(s[4]), hex_value(s[5])) {
        (Some(a), Some(b), Some(c), Some(d)) => Some(((a * 16 + b) * 16 + c) * 16 + d),
        _ => None,
    }
}

/// The characters that the body of a JSON string literal stands for, or
/// `None` when the body is not valid JSON: an unescaped `"` or control
/// character, or an unknown escape. A `\u` escape of a surrogate, which JSON
/// only allows as half of a pair, is left undecoded (`None`) here.
pub open spec fn json_unescape(s: Seq<char>) -> Option<Seq<char>>
    decreases s.len(),
{
    if s.len() == 0 {
        Some(Seq::empty())
    } else if s[0] == '\\' {
        if s.len() < 2 {
            None
        } else if simple_escape(s[1]) is Some {
            cons_decoded(simple_escape(s[1]).unwrap(), json_unescape(s.skip(2)))
        } else if s[1] == 'u' && s.len() >= 6 && unicode_escape_value(s) is Some {
            let v = unicode_escape_value(s).unwrap();
            if 0xD800 <= v && v <= 0xDFFF {
                None
            } else {
                cons_decoded(v as char, json_unescape(s.skip(6)))
            }
        } else {
            None
        }
    } else if s[0] == '"' || (s[0] as u32) < 0x20 {
        None
    } else {
        cons_decoded(s[0], json_unescape(s.skip(1)))
    }
}

proof fn lemma_escape_concat(a: Seq<char>, b: Seq<char>)
    ensures
        escape(a + b) == escape(a) + escape(b),
    decreases b.len(),
{
    if b.len() == 0 {
        assert(a + b =~= a);
        assert(escape(a) + escape(b) =~= escape(a));
    } else {
        lemma_escape_concat(a, b.drop_last());
        assert((a + b).drop_last() =~= a + b.drop_last());
        assert((a + b).last() == b.last());
        assert(escape(a + b) =~= escape(a) + escape(b));
    }
}

proof fn lemma_unescape_one(c: char, w: Seq<char>)
    ensures
        json_unescape(escape_char(c) + w) == cons_decoded(c, json_unescape(w)),
{
    let s = escape_char(c) + w;
    if c == '"' || c == '\\' || c == '\n' || c == '\r' || c == '\t' {
        assert(s[0] == '\\');
        assert(s.skip(2) =~= w);
    } else if (c as u32) < 0x20 {
        let n = c as u32;
        assert(s[0] == '\\' && s[1] == 'u');
        assert(s.skip(6) =~= w);
        assert(hex_value(s[2]) == Some(0nat));
        assert(hex_value(s[3]) == Some(0nat));
        assert(hex_value(s[4]) == Some((n / 16) as nat));
        assert(hex_value(s[5]) == Some((n % 16) as nat));
        assert(unicode_escape_value(s) == Some(n as nat));
        assert((n as nat) as char == c);
    } else {
        assert(s[0] == c);
        assert(s.skip(1) =~= w);
    }
}

/// Escaping is undone by JSON decoding: the body `esc` produces, read back as
/// a JSON string literal, is the original text.
pub proof fn law_escape_round_trip(s: Seq<char>)
    ensures
        json_unescape(escape(s)) == Some(s),
    decreases s.len(),
{
    if s.len() == 0 {
        assert(escape(s) =~= Seq::<char>::empty());
    } else {
        let rest = s.skip(1);
        law_escape_round_trip(rest);
        assert(s =~= seq![s[0]] + rest);
        lemma_escape_concat(seq![s[0]], rest);
        let one = seq![s[0]];
        assert(one.drop_last() =~= Seq::<char>::empty());
        assert(escape(one.drop_last()) == Seq::<char>::empty());
        assert(one.last() == s[0]);
        assert(escape(one) =~= escape_char(s[0]));
        lemma_unescape_one(s[0], escape(rest));
        assert(seq![s[0]] + rest =~= s);
    }
}

fn hex_digit_exec(d: u32) -> (c: char)
    requires
        d < 16,
    ensures
        c == hex_digit(d as nat),
{
    if d < 10 {
        ((d + 48) as u8) as char
    } else {
        ((d + 87) as u8) as char
    }
}

fn push_escaped(out: &mut String, c: char)
    ensures
        final(out)@ == old(out)@ + escape_char(c),
{
    let n: u32 = c as u32;
    let ghost start = out@;
    if c == '"' {
        push_char(out, '\\');
        push_char(out, '"');
    } else if c == '\\' {
        push_char(out, '\\');
        push_char(out, '\\');
    } else if c == '\n' {
        push_char(out, '\\');
        push_char(out, 'n');
    } else if c == '\r' {
        push_char(out, '\\');
        push_char(out, 'r');
    } else if c == '\t' {
        push_char(out, '\\');
        push_char(out, 't');
    } else if n < 0x20 {
        push_char(out, '\\');
        push_char(out, 'u');
        push_char(out, '0');
        push_char(out, '0');
        push_char(out, hex_digit_exec(n / 16));
        push_char(out, hex_digit_exec(n % 16));
    } else {
        push_char(out, c);
    }
    proof {
        assert(out@ =~= start + escape_char(c));
    }
}

/// Escape a string for embedding in a JSON string literal.
pub fn esc(s: &str) -> (out: String)
    ensures
        out@ == escape(s@),
{
    let chars = chars_of(s);
    let mut out = String::new();
    for i in 0..chars.len()
        invariant
            chars@ == s@,
            out@ == escape(s@.take(i as int)),
    {
        push_escaped(&mut out, chars[i]);
        proof {
            assert(s@.take(i + 1).drop_last() =~= s@.take(i as int));
        }
    }
    proof {
        assert(s@.take(s@.len() as int) =~= s@);
    }
    out
}

/// The `generate` request line: `{"op":"generate","id":"<id>","delete":true}`
/// with the optional parts present only when given.
pub open spec fn generate_line(id: Option<Seq<char>>, delete: bool) -> Seq<char> {
    "{\"op\":\"generate\""@ + match id {
        Some(i) => ",\"id\":\""@ + escape(i) + "\""@,
        None => Seq::empty(),
    } + if delete {
        ",\"delete\":true"@
    } else {
        Seq::empty()
    } + "}"@
}

/// The request line of an operation that takes one id.
pub open spec fn id_line(op: Seq<char>, id: Seq<char>) -> Seq<char> {
    "{\"op\":\""@ + op + "\",\"id\":\""@ + escape(id) + "\"}"@
}

/// A `generate` request line for an existing id names the operation, then
/// carries the id as a JSON string that reads back as exactly that id, and
/// ends with the delete flag when (and only when) it is asked for.
pub proof fn law_generate_line_carries_the_id(i: Seq<char>, delete: bool)
    ensures
        ({
            let line = generate_line(Some(i), delete);
            let head = "{\"op\":\"generate\",\"id\":\""@;
            let end = (head.len() + escape(i).len()) as int;
            let tail = if delete {
                ",\"delete\":true}"@
            } else {
                "}"@
            };
            &&& line.len() == end + 1 + tail.len()
            &&& line.subrange(0, head.len() as int) == head
            &&& json_unescape(line.subrange(head.len() as int, end)) == Some(i)
            &&& line[end] == '"'
            &&& line.subrange(end + 1, line.len() as int) == tail
        }),
{
    reveal_strlit("{\"op\":\"generate\",\"id\":\"");
    reveal_strlit("{\"op\":\"generate\"");
    reveal_strlit(",\"id\":\"");
    reveal_strlit("\"");
    reveal_strlit(",\"delete\":true");
    reveal_strlit(",\"delete\":true}");
    reveal_strlit("}");
    law_escape_round_trip(i);
    let line = generate_line(Some(i), delete);
    let head = "{\"op\":\"generate\",\"id\":\""@;
    let e = escape(i);
    let h = head.len() as int;
    let n = e.len() as int;
    let tail = if delete {
        ",\"delete\":true}"@
    } else {
        "}"@
    };
    assert(line =~= head + e + "\""@ + tail);
    assert(line.subrange(0, head.len() as int) =~= head);
    assert(line.subrange(h, h + n) =~= e);
    assert(line.subrange(h + n + 1, line.len() as int) =~= tail);
}

/// A request line for one id names the operation and carries the id as a
/// JSON string that reads back as exactly that id.
pub proof fn law_id_line_carries_the_id(op: Seq<char>, i: Seq<char>)
    ensures
        ({
            let line = id_line(op, i);
            let head = "{\"op\":\""@ + op + "\",\"id\":\""@;
            let end = (head.len() + escape(i).len()) as int;
            &&& line.len() == end + 2
            &&& line.subrange(0, head.len() as int) == head
            &&& json_unescape(line.subrange(head.len() as int, end)) == Some(i)
            &&& line.subrange(end, end + 2) == "\"}"@
        }),
{
    reveal_strlit("\"}");
    law_escape_round_trip(i);
    let line = id_line(op, i);
    let head = "{\"op\":\""@ + op + "\",\"id\":\""@;
    let e = escape(i);
    let h = head.len() as int;
    let n = e.len() as int;
    assert(line =~= head + e + "\"}"@);
    assert(line.subrange(0, head.len() as int) =~= head);
    assert(line.subrange(h, h + n) =~= e);
    assert(line.subrange(h + n, h + n + 2) =~= "\"}"@);
}

/// The `generate` request line.
pub fn generate_request(id: Option<&str>, delete: bool) -> (line: String)
    ensures
        line@ == generate_line(
            match id {
                Some(i) => Some(i@),
                None => None,
            },
            delete,
        ),
{
    let mut op = String::from_str("{\"op\":\"generate\"");
    let ghost head = op@;
    match id {
        Some(i) => {
            op.append(",\"id\":\"");
            let e = esc(i);
            op.append(e.as_str());
            op.append("\"");
        },
        None => {},
    }
    let ghost with_id = op@;
    if delete {
        op.append(",\"delete\":true");
    }
    let ghost with_delete = op@;
    op.append("}");
    proof {
        let id_part = match id {
            Some(i) => ",\"id\":\""@ + escape(i@) + "\""@,
            None => Seq::<char>::empty(),
        };
        assert(with_id =~= head + id_part);
        let del_part = if delete {
            ",\"delete\":true"@
        } else {
            Seq::<char>::empty()
        };
        assert(with_delete =~= head + id_part + del_part);
    }
    op
}

/// The request line of `op` on one id.
pub fn id_request(op: &str, id: &str) -> (line: String)
    ensures
        line@ == id_line(op@, id@),
{
    let mut line = String::from_str("{\"op\":\"");
    line.append(op);
    line.append("\",\"id\":\"");
    let e = esc(id);
    line.append(e.as_str());
    line.append("\"}");
    line
}

/// `needle` occurs in `hay` at index `i`.
pub open spec fn occurs_at(hay: Seq<char>, needle: Seq<char>, i: int) -> bool {
    0 <= i && i + needle.len() <= hay.len() && hay.subrange(i, i + needle.len()) == needle
}

/// A response line reports success: it holds `"ok":true` (always present in
/// a compact response).
pub open spec fn reports_success(line: Seq<char>) -> bool {
    exists|i: int| occurs_at(line, "\"ok\":true"@, i)
}

/// Whether a response line reports success.
pub fn response_succeeded(line: &str) -> (b: bool)
    ensures
        b == reports_success(line@),
{
    let hay = chars_of(line);
    let needle = chars_of("\"ok\":true");
    let n = needle.len();
    if hay.len() < n {
        proof {
            assert forall|i: int| !occurs_at(line@, "\"ok\":true"@, i) by {}
        }
        return false;
    }
    let mut i: usize = 0;
    while i <= hay.len() - n
        invariant
            hay@ == line@,
            needle@ == "\"ok\":true"@,
            n == needle@.len(),
            n <= hay@.len(),
            i <= hay@.len() - n + 1,
            forall|k: int| 0 <= k < i ==> !occurs_at(line@, "\"ok\":true"@, k),
        decreases hay.len() - i,
    {
        let mut j: usize = 0;
        let mut same = true;
        while j < n
            invariant
                j <= n,
                i + n <= hay.len(),
                hay@ == line@,
                needle@ == "\"ok\":true"@,
                n == needle@.len(),
                same == (forall|t: int| 0 <= t < j ==> hay@[i + t] == needle@[t]),
            decreases n - j,
        {
            if hay[i + j] != needle[j] {
                same = false;
            }
            j = j + 1;
        }
        if same {
            proof {
                assert(line@.subrange(i as int, i + n) =~= needle@);
                assert(occurs_at(line@, "\"ok\":true"@, i as int));
            }
            return true;
        }
        proof {
            assert(!occurs_at(line@, "\"ok\":true"@, i as int)) by {
                if occurs_at(line@, "\"ok\":true"@, i as int) {
                    let t = choose|t: int| 0 <= t < n && hay@[i + t] != needle@[t];
                    assert(line@.subrange(i as int, i + n)[t] == needle@[t]);
                }
            }
        }
        i = i + 1;
    }
    proof {
        assert forall|k: int| !occurs_at(line@, "\"ok\":true"@, k) by {
            if 0 <= k && k >= i {
                assert(k + n > hay@.len());
            }
        }
    }
    false
}

} // verus!
