//! Characters and strings: the few operations the kernel and the protocol
//! need, stated over `Seq<char>`.

use vstd::prelude::*;

verus! {

/// An ASCII letter or digit.
pub open spec fn is_ascii_alnum(c: char) -> bool {
    ('0' <= c && c <= '9') || ('A' <= c && c <= 'Z') || ('a' <= c && c <= 'z')
}

/// An ASCII hexadecimal digit, in either case.
pub open spec fn is_ascii_hex(c: char) -> bool {
    ('0' <= c && c <= '9') || ('A' <= c && c <= 'F') || ('a' <= c && c <= 'f')
}

/// A lowercase ASCII letter.
pub open spec fn is_ascii_lower(c: char) -> bool {
    'a' <= c && c <= 'z'
}

/// The ASCII uppercase of `c`; every other character is unchanged.
pub open spec fn ascii_upper_char(c: char) -> char {
    if is_ascii_lower(c) {
        ((c as int) - 32) as char
    } else {
        c
    }
}

/// The ASCII lowercase of `c`; every other character is unchanged.
pub open spec fn ascii_lower_char(c: char) -> char {
    if 'A' <= c && c <= 'Z' {
        ((c as int) + 32) as char
    } else {
        c
    }
}

/// `s` with every ASCII letter in uppercase.
pub open spec fn ascii_upper(s: Seq<char>) -> Seq<char> {
    s.map_values(|c: char| ascii_upper_char(c))
}

/// `s` with every ASCII letter in lowercase.
pub open spec fn ascii_lower(s: Seq<char>) -> Seq<char> {
    s.map_values(|c: char| ascii_lower_char(c))
}

/// The characters for which Rust's `char::is_whitespace` holds: those with
/// the Unicode `White_Space` property.
pub open spec fn is_unicode_whitespace(c: char) -> bool {
    let n = c as u32;
    ||| 0x09 <= n && n <= 0x0D
    ||| n == 0x20
    ||| n == 0x85
    ||| n == 0xA0
    ||| n == 0x1680
    ||| 0x2000 <= n && n <= 0x200A
    ||| n == 0x2028
    ||| n == 0x2029
    ||| n == 0x202F
    ||| n == 0x205F
    ||| n == 0x3000
}

/// `s` without its leading whitespace (`str::trim_start`).
pub open spec fn trim_start(s: Seq<char>) -> Seq<char>
    decreases s.len(),
{
    if s.len() > 0 && is_unicode_whitespace(s[0]) {
        trim_start(s.drop_first())
    } else {
        s
    }
}

/// `s` without its trailing whitespace (`str::trim_end`).
pub open spec fn trim_end(s: Seq<char>) -> Seq<char>
    decreases s.len(),
{
    if s.len() > 0 && is_unicode_whitespace(s.last()) {
        trim_end(s.drop_last())
    } else {
        s
    }
}

/// `s` without leading and trailing whitespace (`str::trim`).
pub open spec fn trim(s: Seq<char>) -> Seq<char> {
    trim_end(trim_start(s))
}

/// The characters of `s`, in order.
pub fn chars_of(s: &str) -> (v: Vec<char>)
    ensures
        v@ == s@,
{
    let mut v: Vec<char> = Vec::new();
    for c in it: s.chars()
        invariant
            v@ == it.seq().take(it.index() as int),
    {
        v.push(c);
    }
    v
}

/// Appends one character to a string.
///
/// Trusted: `String::push`, which std documents as appending the given `char`
/// to the end of the string.
#[verifier::external_body]
pub(crate) fn push_char(s: &mut String, c: char)
    ensures
        final(s)@ == old(s)@.push(c),
{
    s.push(c);
}

/// A string holding exactly the characters `chars`.
pub fn string_of_chars(chars: &[char]) -> (s: String)
    ensures
        s@ == chars@,
{
    let mut s = String::new();
    for i in 0..chars.len()
        invariant
            s@ == chars@.take(i as int),
    {
        push_char(&mut s, chars[i]);
        proof {
            assert(chars@.take(i + 1) =~= chars@.take(i as int).push(chars@[i as int]));
        }
    }
    proof {
        assert(chars@.take(chars@.len() as int) =~= chars@);
    }
    s
}

/// `push_str` for verified code: `s` followed by `tail`.
pub fn append_chars(s: &mut String, tail: &[char])
    ensures
        final(s)@ == old(s)@ + tail@,
{
    for i in 0..tail.len()
        invariant
            s@ == old(s)@ + tail@.take(i as int),
    {
        push_char(s, tail[i]);
        proof {
            assert(tail@.take(i + 1) =~= tail@.take(i as int).push(tail@[i as int]));
        }
    }
    proof {
        assert(tail@.take(tail@.len() as int) =~= tail@);
    }
}

/// ASCII letter or digit.
pub fn is_ascii_alnum_exec(c: char) -> (b: bool)
    ensures
        b == is_ascii_alnum(c),
{
    ('0' <= c && c <= '9') || ('A' <= c && c <= 'Z') || ('a' <= c && c <= 'z')
}

/// ASCII hexadecimal digit.
pub fn is_ascii_hex_exec(c: char) -> (b: bool)
    ensures
        b == is_ascii_hex(c),
{
    ('0' <= c && c <= '9') || ('A' <= c && c <= 'F') || ('a' <= c && c <= 'f')
}

/// The ASCII uppercase of `c`.
pub fn ascii_upper_char_exec(c: char) -> (u: char)
    ensures
        u == ascii_upper_char(c),
{
    if 'a' <= c && c <= 'z' {
        let n: u32 = c as u32;
        let m: u8 = (n - 32) as u8;
        m as char
    } else {
        c
    }
}

/// `s` with its ASCII letters in uppercase.
pub fn ascii_upper_exec(s: &[char]) -> (u: Vec<char>)
    ensures
        u@ == ascii_upper(s@),
{
    let mut u: Vec<char> = Vec::new();
    for i in 0..s.len()
        invariant
            u@ == ascii_upper(s@.take(i as int)),
    {
        u.push(ascii_upper_char_exec(s[i]));
        proof {
            assert(ascii_upper(s@.take(i + 1)) =~= ascii_upper(s@.take(i as int)).push(
                ascii_upper_char(s@[i as int]),
            ));
        }
    }
    proof {
        assert(s@.take(s@.len() as int) =~= s@);
    }
    u
}

/// Rust's `char::is_whitespace`.
pub fn is_unicode_whitespace_exec(c: char) -> (b: bool)
    ensures
        b == is_unicode_whitespace(c),
{
    let n: u32 = c as u32;
    (0x09 <= n && n <= 0x0D) || n == 0x20 || n == 0x85 || n == 0xA0 || n == 0x1680 || (0x2000
        <= n && n <= 0x200A) || n == 0x2028 || n == 0x2029 || n == 0x202F || n == 0x205F || n
        == 0x3000
}

/// `s.trim()`, as an owned string.
pub fn trim_exec(s: &str) -> (t: String)
    ensures
        t@ == trim(s@),
{
    let chars = chars_of(s);
    let n = chars.len();
    let mut i: usize = 0;
    assert(s@.subrange(0, n as int) =~= s@);
    while i < n && is_unicode_whitespace_exec(chars[i])
        invariant
            i <= n,
            n == s@.len(),
            chars@ == s@,
            trim_start(s@) == trim_start(s@.subrange(i as int, n as int)),
        decreases n - i,
    {
        proof {
            assert(s@.subrange(i as int, n as int).drop_first() =~= s@.subrange(i + 1, n as int));
        }
        i = i + 1;
    }
    let ghost front = s@.subrange(i as int, n as int);
    assert(trim_start(front) == front);
    let mut j: usize = n;
    while j > i && is_unicode_whitespace_exec(chars[j - 1])
        invariant
            i <= j <= n,
            n == s@.len(),
            chars@ == s@,
            front == s@.subrange(i as int, n as int),
            trim_end(front) == trim_end(s@.subrange(i as int, j as int)),
        decreases j,
    {
        proof {
            assert(s@.subrange(i as int, j as int).drop_last() =~= s@.subrange(i as int, j - 1));
        }
        j = j - 1;
    }
    let mut t = String::new();
    let mut k: usize = i;
    while k < j
        invariant
            i <= k <= j,
            j <= n,
            n == s@.len(),
            chars@ == s@,
            t@ == s@.subrange(i as int, k as int),
        decreases j - k,
    {
        push_char(&mut t, chars[k]);
        proof {
            assert(s@.subrange(i as int, k + 1) =~= s@.subrange(i as int, k as int).push(s@[k as int]));
        }
        k = k + 1;
    }
    t
}

} // verus!
