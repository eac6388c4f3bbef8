//! The JSON body format spoken by the user-creation route.
//!
//! The accepted request shape is a JSON object with a string member
//! `"username"`, in any member position; the other members may hold any
//! JSON value — strings, numbers, booleans, null, nested objects and
//! arrays — and are skipped, as a deserializer ignoring unknown fields
//! would. A duplicate `username` member, or one bound to anything besides
//! a string, rejects the body. String values support the JSON escapes
//! `\"`, `\\`, `\/`, `\b`, `\f`, `\n`, `\r`, `\t` and `\uXXXX`, with
//! surrogate pairs combined into supplementary characters and lone
//! surrogates rejected; raw control characters are rejected, as JSON
//! demands.
//!
//! The grammar is written once, as spec functions over `Seq<char>`, and the
//! executable parser and encoders are proved against it. A round-trip law
//! shows that every username, encoded by [`create_user_body`], is recovered
//! exactly by the parser.

use vstd::prelude::*;

verus! {

// ---------------------------------------------------------------------------
// Character classes
// ---------------------------------------------------------------------------

/// JSON insignificant whitespace.
pub open spec fn is_ws(c: char) -> bool {
    c == ' ' || c == '\t' || c == '\n' || c == '\r'
}

/// Control characters must appear escaped inside JSON strings.
pub open spec fn is_control(c: char) -> bool {
    (c as u32) < 0x20
}

/// Value of a hexadecimal digit, or 16 when `c` is no such digit.
pub open spec fn hex_val(c: char) -> int {
    let u = c as u32;
    if '0' as u32 <= u && u <= '9' as u32 {
        u - '0' as u32
    } else if 'a' as u32 <= u && u <= 'f' as u32 {
        u - 'a' as u32 + 10
    } else if 'A' as u32 <= u && u <= 'F' as u32 {
        u - 'A' as u32 + 10
    } else {
        16
    }
}

/// The lower-case hexadecimal digit for `n` in `0..16`.
pub open spec fn hex_digit(n: int) -> char {
    if n == 0 { '0' } else if n == 1 { '1' } else if n == 2 { '2' }
    else if n == 3 { '3' } else if n == 4 { '4' } else if n == 5 { '5' }
    else if n == 6 { '6' } else if n == 7 { '7' } else if n == 8 { '8' }
    else if n == 9 { '9' } else if n == 10 { 'a' } else if n == 11 { 'b' }
    else if n == 12 { 'c' } else if n == 13 { 'd' } else if n == 14 { 'e' }
    else { 'f' }
}

/// The character named by a single-character JSON escape, if any.
pub open spec fn unescape_char(c: char) -> Option<char> {
    if c == '"' { Some('"') }
    else if c == '\\' { Some('\\') }
    else if c == '/' { Some('/') }
    else if c == 'b' { Some('\u{0008}') }
    else if c == 'f' { Some('\u{000c}') }
    else if c == 'n' { Some('\n') }
    else if c == 'r' { Some('\r') }
    else if c == 't' { Some('\t') }
    else { None }
}

// ---------------------------------------------------------------------------
// Spec-level parsing
// ---------------------------------------------------------------------------

/// Index of the first non-whitespace character at or after `i`.
pub open spec fn skip_ws(s: Seq<char>, i: int) -> int
    decreases s.len() - i,
{
    if 0 <= i && i < s.len() && is_ws(s[i]) {
        skip_ws(s, i + 1)
    } else {
        i
    }
}

/// Do the four characters at `i` spell four hexadecimal digits?
pub open spec fn is_hex4(s: Seq<char>, i: int) -> bool {
    &&& i + 4 <= s.len()
    &&& hex_val(s[i]) < 16
    &&& hex_val(s[i + 1]) < 16
    &&& hex_val(s[i + 2]) < 16
    &&& hex_val(s[i + 3]) < 16
}

/// Value of the four hexadecimal digits at `i`.
pub open spec fn hex4_val(s: Seq<char>, i: int) -> int {
    hex_val(s[i]) * 0x1000 + hex_val(s[i + 1]) * 0x100 + hex_val(s[i + 2]) * 16 + hex_val(
        s[i + 3],
    )
}

/// Parse the body of a JSON string: the characters from `i` (just past the
/// opening quote) up to the closing quote. Returns the decoded text and the
/// index just past the closing quote.
pub open spec fn parse_string_body(s: Seq<char>, i: int) -> Option<(Seq<char>, int)>
    decreases s.len() - i,
{
    if i < 0 || i >= s.len() {
        None
    } else if s[i] == '"' {
        Some((Seq::empty(), i + 1))
    } else if s[i] == '\\' {
        if i + 1 < s.len() && s[i + 1] == 'u' {
            if is_hex4(s, i + 2) {
                let va = hex4_val(s, i + 2);
                if va < 0xD800 || va >= 0xE000 {
                    match parse_string_body(s, i + 6) {
                        Some(p) => Some((seq![(va as u32) as char] + p.0, p.1)),
                        None => None,
                    }
                } else if va < 0xDC00 {
                    // a high surrogate: a low surrogate escape must follow,
                    // and the pair names one supplementary character
                    if i + 8 <= s.len() && s[i + 6] == '\\' && s[i + 7] == 'u' && is_hex4(
                        s,
                        i + 8,
                    ) && 0xDC00 <= hex4_val(s, i + 8) < 0xE000 {
                        match parse_string_body(s, i + 12) {
                            Some(p) => Some(
                                (
                                    seq![
                                        ((0x10000 + (va - 0xD800) * 0x400 + (hex4_val(s, i + 8)
                                            - 0xDC00)) as u32) as char
                                    ] + p.0,
                                    p.1,
                                ),
                            ),
                            None => None,
                        }
                    } else {
                        None
                    }
                } else {
                    // a lone low surrogate
                    None
                }
            } else {
                None
            }
        } else if i + 1 < s.len() && unescape_char(s[i + 1]) is Some {
            match parse_string_body(s, i + 2) {
                Some(p) => Some((seq![unescape_char(s[i + 1]).unwrap()] + p.0, p.1)),
                None => None,
            }
        } else {
            None
        }
    } else if is_control(s[i]) {
        None
    } else {
        match parse_string_body(s, i + 1) {
            Some(p) => Some((seq![s[i]] + p.0, p.1)),
            None => None,
        }
    }
}

/// Is `c` a decimal digit?
pub open spec fn is_digit(c: char) -> bool {
    '0' as u32 <= c as u32 && c as u32 <= '9' as u32
}

/// First index at or after `i` that does not hold a digit.
pub open spec fn skip_digits(s: Seq<char>, i: int) -> int
    decreases s.len() - i,
{
    if 0 <= i && i < s.len() && is_digit(s[i]) {
        skip_digits(s, i + 1)
    } else {
        i
    }
}

/// Skip the optional exponent of a JSON number ending at `i`.
pub open spec fn skip_number_exp(s: Seq<char>, i: int) -> Option<int> {
    if i < s.len() && (s[i] == 'e' || s[i] == 'E') {
        let a = if i + 1 < s.len() && (s[i + 1] == '+' || s[i + 1] == '-') {
            i + 2
        } else {
            i + 1
        };
        if a < s.len() && is_digit(s[a]) {
            Some(skip_digits(s, a))
        } else {
            None
        }
    } else {
        Some(i)
    }
}

/// Skip the optional fraction and exponent of a JSON number whose integer
/// part ends at `i`.
pub open spec fn skip_number_frac(s: Seq<char>, i: int) -> Option<int> {
    if i < s.len() && s[i] == '.' {
        if i + 1 < s.len() && is_digit(s[i + 1]) {
            skip_number_exp(s, skip_digits(s, i + 1))
        } else {
            None
        }
    } else {
        skip_number_exp(s, i)
    }
}

/// Skip a JSON number starting at `i` (which the caller has checked holds
/// `-` or a digit): optional minus, integer part without leading zeros,
/// optional fraction, optional exponent.
pub open spec fn skip_number(s: Seq<char>, i: int) -> Option<int> {
    let a = if s[i] == '-' {
        i + 1
    } else {
        i
    };
    if a < s.len() && s[a] == '0' {
        skip_number_frac(s, a + 1)
    } else if a < s.len() && is_digit(s[a]) {
        skip_number_frac(s, skip_digits(s, a))
    } else {
        None
    }
}

/// Index just past the JSON value starting at `i`, or `None` where no
/// well-formed value starts there. `fuel` bounds the recursion into nested
/// values and member lists; every recursive step consumes at least one
/// character, so the fuel the library passes — the input length — never
/// runs out on a well-formed input.
pub open spec fn skip_value(s: Seq<char>, i: int, fuel: nat) -> Option<int>
    decreases fuel, 1int,
{
    if fuel == 0 || i < 0 || i >= s.len() {
        None
    } else if s[i] == '"' {
        match parse_string_body(s, i + 1) {
            Some(p) => Some(p.1),
            None => None,
        }
    } else if s[i] == '{' {
        let j = skip_ws(s, i + 1);
        if j < s.len() && s[j] == '}' {
            Some(j + 1)
        } else {
            skip_members(s, j, (fuel - 1) as nat)
        }
    } else if s[i] == '[' {
        let j = skip_ws(s, i + 1);
        if j < s.len() && s[j] == ']' {
            Some(j + 1)
        } else {
            skip_elements(s, j, (fuel - 1) as nat)
        }
    } else if s[i] == 't' {
        if i + 4 <= s.len() && s[i + 1] == 'r' && s[i + 2] == 'u' && s[i + 3] == 'e' {
            Some(i + 4)
        } else {
            None
        }
    } else if s[i] == 'f' {
        if i + 5 <= s.len() && s[i + 1] == 'a' && s[i + 2] == 'l' && s[i + 3] == 's' && s[i + 4]
            == 'e' {
            Some(i + 5)
        } else {
            None
        }
    } else if s[i] == 'n' {
        if i + 4 <= s.len() && s[i + 1] == 'u' && s[i + 2] == 'l' && s[i + 3] == 'l' {
            Some(i + 4)
        } else {
            None
        }
    } else if s[i] == '-' || is_digit(s[i]) {
        skip_number(s, i)
    } else {
        None
    }
}

/// Skip the members of an object being skipped, from the position of a
/// key: index just past the closing brace, or `None`.
pub open spec fn skip_members(s: Seq<char>, j: int, fuel: nat) -> Option<int>
    decreases fuel, 0int,
{
    if fuel == 0 || j < 0 || j >= s.len() || s[j] != '"' {
        None
    } else {
        match parse_string_body(s, j + 1) {
            Some(key) => {
                let k1 = skip_ws(s, key.1);
                if k1 < s.len() && s[k1] == ':' {
                    match skip_value(s, skip_ws(s, k1 + 1), (fuel - 1) as nat) {
                        Some(e) => {
                            let k3 = skip_ws(s, e);
                            if k3 < s.len() && s[k3] == '}' {
                                Some(k3 + 1)
                            } else if k3 < s.len() && s[k3] == ',' {
                                skip_members(s, skip_ws(s, k3 + 1), (fuel - 1) as nat)
                            } else {
                                None
                            }
                        },
                        None => None,
                    }
                } else {
                    None
                }
            },
            None => None,
        }
    }
}

/// Skip the elements of an array being skipped, from the position of an
/// element: index just past the closing bracket, or `None`.
pub open spec fn skip_elements(s: Seq<char>, j: int, fuel: nat) -> Option<int>
    decreases fuel, 0int,
{
    if fuel == 0 {
        None
    } else {
        match skip_value(s, j, (fuel - 1) as nat) {
            Some(e) => {
                let k = skip_ws(s, e);
                if k < s.len() && s[k] == ']' {
                    Some(k + 1)
                } else if k < s.len() && s[k] == ',' {
                    skip_elements(s, skip_ws(s, k + 1), (fuel - 1) as nat)
                } else {
                    None
                }
            },
            None => None,
        }
    }
}

/// Walk the members of the top-level object from the position of a key,
/// carrying the `username` string found so far: the username (if any
/// member bound it) and the index just past the closing brace. A second
/// `username` member, a non-string `username` value, or any malformed
/// member is `None`.
pub open spec fn parse_members(
    s: Seq<char>,
    j: int,
    found: Option<Seq<char>>,
    fuel: nat,
) -> Option<(Option<Seq<char>>, int)>
    decreases fuel, 1int,
{
    if fuel == 0 || j < 0 || j >= s.len() || s[j] != '"' {
        None
    } else {
        match parse_string_body(s, j + 1) {
            Some(key) => {
                let k1 = skip_ws(s, key.1);
                if k1 < s.len() && s[k1] == ':' {
                    let k2 = skip_ws(s, k1 + 1);
                    if key.0 == "username"@ {
                        if found is Some {
                            // a duplicate `username` member
                            None
                        } else if k2 < s.len() && s[k2] == '"' {
                            match parse_string_body(s, k2 + 1) {
                                Some(val) => parse_members_tail(s, val.1, Some(val.0), fuel),
                                None => None,
                            }
                        } else {
                            // `username` bound to something besides a string
                            None
                        }
                    } else {
                        match skip_value(s, k2, (fuel - 1) as nat) {
                            Some(e) => parse_members_tail(s, e, found, fuel),
                            None => None,
                        }
                    }
                } else {
                    None
                }
            },
            None => None,
        }
    }
}

/// After a member's value, ending at `e`: close the object, or step over a
/// comma to the next member.
pub open spec fn parse_members_tail(
    s: Seq<char>,
    e: int,
    found: Option<Seq<char>>,
    fuel: nat,
) -> Option<(Option<Seq<char>>, int)>
    decreases fuel, 0int,
{
    let k3 = skip_ws(s, e);
    if k3 < s.len() && s[k3] == '}' {
        Some((found, k3 + 1))
    } else if k3 < s.len() && s[k3] == ',' {
        if fuel == 0 {
            None
        } else {
            parse_members(s, skip_ws(s, k3 + 1), found, (fuel - 1) as nat)
        }
    } else {
        None
    }
}

/// The username carried by a request body, when the body is a JSON object
/// with a member `"username"` bound to a JSON string — members in any
/// order, any other members skipped whatever their values; `None` on every
/// other body (no such member, a duplicate, a non-string value, or a body
/// that is not one well-formed object).
pub open spec fn spec_username_of(s: Seq<char>) -> Option<Seq<char>> {
    let i0 = skip_ws(s, 0);
    if i0 < s.len() && s[i0] == '{' {
        let j = skip_ws(s, i0 + 1);
        if j < s.len() && s[j] == '}' {
            // an empty object binds no username
            None
        } else {
            match parse_members(s, j, None, s.len() as nat) {
                Some(p) => if skip_ws(s, p.1) == s.len() {
                    p.0
                } else {
                    None
                },
                None => None,
            }
        }
    } else {
        None
    }
}

// ---------------------------------------------------------------------------
// Spec-level encoding
// ---------------------------------------------------------------------------

/// How one character is written inside a JSON string: quote and backslash
/// get a backslash escape, control characters a `\u00XX` escape, everything
/// else stands for itself.
pub open spec fn escape_char(c: char) -> Seq<char> {
    if c == '"' {
        seq!['\\', '"']
    } else if c == '\\' {
        seq!['\\', '\\']
    } else if is_control(c) {
        seq!['\\', 'u', '0', '0', hex_digit((c as u32) as int / 16), hex_digit((c as u32) as int % 16)]
    } else {
        seq![c]
    }
}

/// How a text is written inside a JSON string.
pub open spec fn escape_string(s: Seq<char>) -> Seq<char>
    decreases s.len(),
{
    if s.len() == 0 {
        Seq::empty()
    } else {
        escape_char(s[0]) + escape_string(s.subrange(1, s.len() as int))
    }
}

/// The canonical request body that carries `s` as the username.
pub open spec fn spec_create_user_body(s: Seq<char>) -> Seq<char> {
    "{\"username\":\""@ + escape_string(s) + "\"}"@
}

// ---------------------------------------------------------------------------
// Executable helpers
// ---------------------------------------------------------------------------

/// The characters of `s`, one by one.
pub fn str_to_chars(s: &str) -> (v: Vec<char>)
    ensures
        v@ == s@,
{
    let n = s.unicode_len();
    let mut v: Vec<char> = Vec::new();
    let mut i: usize = 0;
    while i < n
        invariant
            n == s@.len(),
            i <= n,
            v@ == s@.subrange(0, i as int),
        decreases n - i,
    {
        v.push(s.get_char(i));
        i = i + 1;
        proof {
            assert(v@ =~= s@.subrange(0, i as int));
        }
    }
    proof {
        assert(s@.subrange(0, n as int) =~= s@);
    }
    v
}

/// Relies on `char::from_u32`: it returns the character with the given
/// code point, and `None` exactly on surrogates (0xD800 to 0xDFFF) and on
/// values above `char::MAX` (0x10FFFF).
pub assume_specification [ char::from_u32 ](n: u32) -> (r: Option<char>)
    ensures
        r is Some <==> (n < 0xD800 || (0xE000 <= n && n <= 0x10FFFF)),
        (r matches Some(c) ==> c as u32 == n),
;

/// Relies on `String`'s `FromIterator<char>` implementation: collecting an
/// iterator of characters yields the string of exactly those characters, in
/// order.
#[verifier::external_body]
pub(crate) fn chars_to_string(v: Vec<char>) -> (r: String)
    ensures
        r@ == v@,
{
    v.into_iter().collect()
}

/// Do the characters of `v` spell exactly `s`?
pub fn chars_eq_str(v: &Vec<char>, s: &str) -> (r: bool)
    ensures
        r == (v@ == s@),
{
    let n = s.unicode_len();
    if v.len() != n {
        proof {
            assert(v@ != s@) by {
                assert(v@.len() != s@.len());
            }
        }
        return false;
    }
    let mut i: usize = 0;
    while i < n
        invariant
            n == s@.len(),
            n == v@.len(),
            i <= n,
            forall|k: int| 0 <= k < i ==> v@[k] == s@[k],
        decreases n - i,
    {
        if v[i] != s.get_char(i) {
            return false;
        }
        i = i + 1;
    }
    proof {
        assert(v@ =~= s@);
    }
    true
}

/// Index of the first non-whitespace character of `v` at or after `i`.
fn skip_ws_exec(v: &Vec<char>, i: usize) -> (j: usize)
    requires
        i <= v@.len(),
    ensures
        i <= j <= v@.len(),
        j as int == skip_ws(v@, i as int),
{
    let mut k: usize = i;
    let mut done: bool = false;
    while !done
        invariant
            i <= k <= v@.len(),
            skip_ws(v@, i as int) == skip_ws(v@, k as int),
            done ==> (k == v@.len() || !is_ws(v@[k as int])),
        decreases v@.len() - k + (if done { 0int } else { 1int }),
    {
        if k < v.len() {
            let c = v[k];
            if c == ' ' || c == '\t' || c == '\n' || c == '\r' {
                k = k + 1;
            } else {
                done = true;
            }
        } else {
            done = true;
        }
    }
    k
}

/// Value of a hexadecimal digit, or 16 when `c` is no such digit.
fn hex_val_exec(c: char) -> (r: u32)
    ensures
        r as int == hex_val(c),
{
    let u = c as u32;
    if '0' as u32 <= u && u <= '9' as u32 {
        u - '0' as u32
    } else if 'a' as u32 <= u && u <= 'f' as u32 {
        u - 'a' as u32 + 10
    } else if 'A' as u32 <= u && u <= 'F' as u32 {
        u - 'A' as u32 + 10
    } else {
        16
    }
}

/// Parse the body of a JSON string of `v` starting at `start` (just past
/// the opening quote): the decoded text and the index past the closing
/// quote, or `None` where no well-formed string body starts there.
#[verifier::rlimit(80)]
fn parse_string_exec(v: &Vec<char>, start: usize) -> (r: Option<(Vec<char>, usize)>)
    requires
        start <= v@.len(),
    ensures
        (match r {
            Some(p) => {
                &&& p.1 <= v@.len()
                &&& parse_string_body(v@, start as int) == Some((p.0@, p.1 as int))
            },
            None => parse_string_body(v@, start as int) is None,
        }),
{
    let mut acc: Vec<char> = Vec::new();
    let mut k: usize = start;
    loop
        invariant
            start <= k <= v@.len(),
            (match parse_string_body(v@, k as int) {
                Some(p) => parse_string_body(v@, start as int) == Some((acc@ + p.0, p.1)),
                None => parse_string_body(v@, start as int) is None,
            }),
        decreases v@.len() - k,
    {
        if k >= v.len() {
            return None;
        }
        let c = v[k];
        if c == '"' {
            proof {
                assert(acc@ + Seq::<char>::empty() =~= acc@);
            }
            return Some((acc, k + 1));
        } else if c == '\\' {
            if k + 1 >= v.len() {
                return None;
            }
            let e = v[k + 1];
            if e == 'u' {
                if v.len() - k < 6 {
                    return None;
                }
                let h0 = hex_val_exec(v[k + 2]);
                let h1 = hex_val_exec(v[k + 3]);
                let h2 = hex_val_exec(v[k + 4]);
                let h3 = hex_val_exec(v[k + 5]);
                if h0 >= 16 || h1 >= 16 || h2 >= 16 || h3 >= 16 {
                    return None;
                }
                let va: u32 = h0 * 0x1000 + h1 * 0x100 + h2 * 16 + h3;
                if va < 0xD800 || va >= 0xE000 {
                    let decoded = match char::from_u32(va) {
                        Some(ch) => ch,
                        None => {
                            return None;
                        },
                    };
                    let ghost prev = acc@;
                    acc.push(decoded);
                    k = k + 6;
                    proof {
                        vstd::utf8::char_u32_cast(decoded, va);
                        assert(decoded == (va as char));
                        if parse_string_body(v@, k as int) is Some {
                            let p = parse_string_body(v@, k as int).unwrap();
                            assert(prev + (seq![(va as char)] + p.0) =~= acc@ + p.0);
                        }
                    }
                } else if va < 0xDC00 {
                    if v.len() - k < 12 {
                        return None;
                    }
                    if v[k + 6] != '\\' || v[k + 7] != 'u' {
                        return None;
                    }
                    let g0 = hex_val_exec(v[k + 8]);
                    let g1 = hex_val_exec(v[k + 9]);
                    let g2 = hex_val_exec(v[k + 10]);
                    let g3 = hex_val_exec(v[k + 11]);
                    if g0 >= 16 || g1 >= 16 || g2 >= 16 || g3 >= 16 {
                        return None;
                    }
                    let vb: u32 = g0 * 0x1000 + g1 * 0x100 + g2 * 16 + g3;
                    if vb < 0xDC00 || vb >= 0xE000 {
                        return None;
                    }
                    let code: u32 = 0x10000 + (va - 0xD800) * 0x400 + (vb - 0xDC00);
                    let decoded = match char::from_u32(code) {
                        Some(ch) => ch,
                        None => {
                            return None;
                        },
                    };
                    let ghost prev = acc@;
                    acc.push(decoded);
                    k = k + 12;
                    proof {
                        vstd::utf8::char_u32_cast(decoded, code);
                        assert(decoded == (code as char));
                        if parse_string_body(v@, k as int) is Some {
                            let p = parse_string_body(v@, k as int).unwrap();
                            assert(prev + (seq![(code as char)] + p.0) =~= acc@ + p.0);
                        }
                    }
                } else {
                    return None;
                }
            } else if e == '"' || e == '\\' || e == '/' || e == 'b' || e == 'f' || e == 'n'
                || e == 'r' || e == 't' {
                let decoded: char = if e == '"' { '"' } else if e == '\\' { '\\' } else if e
                    == '/' { '/' } else if e == 'b' { '\u{0008}' } else if e == 'f' {
                    '\u{000c}'
                } else if e == 'n' { '\n' } else if e == 'r' { '\r' } else { '\t' };
                let ghost prev = acc@;
                acc.push(decoded);
                k = k + 2;
                proof {
                    if parse_string_body(v@, k as int) is Some {
                        let p = parse_string_body(v@, k as int).unwrap();
                        assert(prev + (seq![decoded] + p.0) =~= acc@ + p.0);
                    }
                }
            } else {
                return None;
            }
        } else if (c as u32) < 0x20 {
            return None;
        } else {
            let ghost prev = acc@;
            acc.push(c);
            k = k + 1;
            proof {
                if parse_string_body(v@, k as int) is Some {
                    let p = parse_string_body(v@, k as int).unwrap();
                    assert(prev + (seq![c] + p.0) =~= acc@ + p.0);
                }
            }
        }
    }
}

/// First index of `v` at or after `i` that does not hold a digit.
fn skip_digits_exec(v: &Vec<char>, i: usize) -> (j: usize)
    requires
        i <= v@.len(),
    ensures
        i <= j <= v@.len(),
        j as int == skip_digits(v@, i as int),
    decreases v@.len() - i,
{
    if i < v.len() {
        let c = v[i];
        if '0' as u32 <= c as u32 && c as u32 <= '9' as u32 {
            return skip_digits_exec(v, i + 1);
        }
    }
    i
}

/// Skip the optional exponent of a number ending at `i`.
fn skip_number_exp_exec(v: &Vec<char>, i: usize) -> (r: Option<usize>)
    requires
        i <= v@.len(),
    ensures
        (match r {
            Some(e) => e <= v@.len() && skip_number_exp(v@, i as int) == Some(e as int),
            None => skip_number_exp(v@, i as int) is None,
        }),
{
    if i < v.len() && (v[i] == 'e' || v[i] == 'E') {
        let a: usize = if i + 1 < v.len() && (v[i + 1] == '+' || v[i + 1] == '-') {
            i + 2
        } else {
            i + 1
        };
        if a < v.len() {
            let c = v[a];
            if '0' as u32 <= c as u32 && c as u32 <= '9' as u32 {
                return Some(skip_digits_exec(v, a));
            }
        }
        None
    } else {
        Some(i)
    }
}

/// Skip the optional fraction and exponent of a number whose integer part
/// ends at `i`.
fn skip_number_frac_exec(v: &Vec<char>, i: usize) -> (r: Option<usize>)
    requires
        i <= v@.len(),
    ensures
        (match r {
            Some(e) => e <= v@.len() && skip_number_frac(v@, i as int) == Some(e as int),
            None => skip_number_frac(v@, i as int) is None,
        }),
{
    if i < v.len() && v[i] == '.' {
        if i + 1 < v.len() {
            let c = v[i + 1];
            if '0' as u32 <= c as u32 && c as u32 <= '9' as u32 {
                return skip_number_exp_exec(v, skip_digits_exec(v, i + 1));
            }
        }
        None
    } else {
        skip_number_exp_exec(v, i)
    }
}

/// Skip a JSON number starting at `i`.
fn skip_number_exec(v: &Vec<char>, i: usize) -> (r: Option<usize>)
    requires
        i < v@.len(),
    ensures
        (match r {
            Some(e) => e <= v@.len() && skip_number(v@, i as int) == Some(e as int),
            None => skip_number(v@, i as int) is None,
        }),
{
    let n = v.len();
    let a: usize = if v[i] == '-' {
        i + 1
    } else {
        i
    };
    if a < v.len() && v[a] == '0' {
        skip_number_frac_exec(v, a + 1)
    } else if a < v.len() {
        let c = v[a];
        if '0' as u32 <= c as u32 && c as u32 <= '9' as u32 {
            skip_number_frac_exec(v, skip_digits_exec(v, a))
        } else {
            None
        }
    } else {
        None
    }
}

/// Skip the JSON value starting at `i`.
fn skip_value_exec(v: &Vec<char>, i: usize, fuel: usize) -> (r: Option<usize>)
    requires
        i <= v@.len(),
    ensures
        (match r {
            Some(e) => e <= v@.len() && skip_value(v@, i as int, fuel as nat) == Some(e as int),
            None => skip_value(v@, i as int, fuel as nat) is None,
        }),
    decreases fuel, 1int,
{
    if fuel == 0 || i >= v.len() {
        return None;
    }
    let c = v[i];
    if c == '"' {
        match parse_string_exec(v, i + 1) {
            Some(p) => Some(p.1),
            None => None,
        }
    } else if c == '{' {
        let j = skip_ws_exec(v, i + 1);
        if j < v.len() && v[j] == '}' {
            Some(j + 1)
        } else {
            skip_members_exec(v, j, fuel - 1)
        }
    } else if c == '[' {
        let j = skip_ws_exec(v, i + 1);
        if j < v.len() && v[j] == ']' {
            Some(j + 1)
        } else {
            skip_elements_exec(v, j, fuel - 1)
        }
    } else if c == 't' {
        if v.len() - i >= 4 && v[i + 1] == 'r' && v[i + 2] == 'u' && v[i + 3] == 'e' {
            Some(i + 4)
        } else {
            None
        }
    } else if c == 'f' {
        if v.len() - i >= 5 && v[i + 1] == 'a' && v[i + 2] == 'l' && v[i + 3] == 's' && v[i + 4]
            == 'e' {
            Some(i + 5)
        } else {
            None
        }
    } else if c == 'n' {
        if v.len() - i >= 4 && v[i + 1] == 'u' && v[i + 2] == 'l' && v[i + 3] == 'l' {
            Some(i + 4)
        } else {
            None
        }
    } else if c == '-' || ('0' as u32 <= c as u32 && c as u32 <= '9' as u32) {
        skip_number_exec(v, i)
    } else {
        None
    }
}

/// Skip the members of an object being skipped, from the position of a key.
fn skip_members_exec(v: &Vec<char>, j: usize, fuel: usize) -> (r: Option<usize>)
    requires
        j <= v@.len(),
    ensures
        (match r {
            Some(e) => e <= v@.len() && skip_members(v@, j as int, fuel as nat) == Some(e as int),
            None => skip_members(v@, j as int, fuel as nat) is None,
        }),
    decreases fuel, 0int,
{
    if fuel == 0 || j >= v.len() {
        return None;
    }
    if v[j] != '"' {
        return None;
    }
    match parse_string_exec(v, j + 1) {
        None => None,
        Some(key) => {
            let k1 = skip_ws_exec(v, key.1);
            if !(k1 < v.len()) {
                return None;
            }
            if v[k1] != ':' {
                return None;
            }
            match skip_value_exec(v, skip_ws_exec(v, k1 + 1), fuel - 1) {
                None => None,
                Some(e) => {
                    let k3 = skip_ws_exec(v, e);
                    if k3 < v.len() && v[k3] == '}' {
                        Some(k3 + 1)
                    } else if k3 < v.len() && v[k3] == ',' {
                        skip_members_exec(v, skip_ws_exec(v, k3 + 1), fuel - 1)
                    } else {
                        None
                    }
                },
            }
        },
    }
}

/// Skip the elements of an array being skipped, from the position of an
/// element.
fn skip_elements_exec(v: &Vec<char>, j: usize, fuel: usize) -> (r: Option<usize>)
    requires
        j <= v@.len(),
    ensures
        (match r {
            Some(e) => e <= v@.len() && skip_elements(v@, j as int, fuel as nat) == Some(e as int),
            None => skip_elements(v@, j as int, fuel as nat) is None,
        }),
    decreases fuel, 0int,
{
    if fuel == 0 {
        return None;
    }
    match skip_value_exec(v, j, fuel - 1) {
        None => None,
        Some(e) => {
            let k = skip_ws_exec(v, e);
            if k < v.len() && v[k] == ']' {
                Some(k + 1)
            } else if k < v.len() && v[k] == ',' {
                skip_elements_exec(v, skip_ws_exec(v, k + 1), fuel - 1)
            } else {
                None
            }
        },
    }
}

/// The view of an optionally held character buffer.
pub open spec fn opt_chars_view(o: Option<Vec<char>>) -> Option<Seq<char>> {
    match o {
        Some(u) => Some(u@),
        None => None,
    }
}

/// Walk the members of the top-level object from the position of a key,
/// carrying the `username` string found so far.
fn parse_members_exec(v: &Vec<char>, j: usize, found: Option<Vec<char>>, fuel: usize) -> (r:
    Option<(Option<Vec<char>>, usize)>)
    requires
        j <= v@.len(),
    ensures
        (match r {
            Some(p) => p.1 <= v@.len() && parse_members(
                v@,
                j as int,
                opt_chars_view(found),
                fuel as nat,
            ) == Some((opt_chars_view(p.0), p.1 as int)),
            None => parse_members(v@, j as int, opt_chars_view(found), fuel as nat) is None,
        }),
    decreases fuel, 1int,
{
    if fuel == 0 || j >= v.len() {
        return None;
    }
    if v[j] != '"' {
        return None;
    }
    match parse_string_exec(v, j + 1) {
        None => None,
        Some(key) => {
            let k1 = skip_ws_exec(v, key.1);
            if !(k1 < v.len()) {
                return None;
            }
            if v[k1] != ':' {
                return None;
            }
            let k2 = skip_ws_exec(v, k1 + 1);
            if chars_eq_str(&key.0, "username") {
                if found.is_some() {
                    return None;
                }
                if !(k2 < v.len()) {
                    return None;
                }
                if v[k2] != '"' {
                    return None;
                }
                match parse_string_exec(v, k2 + 1) {
                    None => None,
                    Some(val) => parse_members_tail_exec(v, val.1, Some(val.0), fuel),
                }
            } else {
                match skip_value_exec(v, k2, fuel - 1) {
                    None => None,
                    Some(e) => parse_members_tail_exec(v, e, found, fuel),
                }
            }
        },
    }
}

/// After a member's value, ending at `e`: close the object, or step over a
/// comma to the next member.
fn parse_members_tail_exec(v: &Vec<char>, e: usize, found: Option<Vec<char>>, fuel: usize) -> (r:
    Option<(Option<Vec<char>>, usize)>)
    requires
        e <= v@.len(),
    ensures
        (match r {
            Some(p) => p.1 <= v@.len() && parse_members_tail(
                v@,
                e as int,
                opt_chars_view(found),
                fuel as nat,
            ) == Some((opt_chars_view(p.0), p.1 as int)),
            None => parse_members_tail(v@, e as int, opt_chars_view(found), fuel as nat) is None,
        }),
    decreases fuel, 0int,
{
    let k3 = skip_ws_exec(v, e);
    if k3 < v.len() && v[k3] == '}' {
        Some((found, k3 + 1))
    } else if k3 < v.len() && v[k3] == ',' {
        if fuel == 0 {
            None
        } else {
            parse_members_exec(v, skip_ws_exec(v, k3 + 1), found, fuel - 1)
        }
    } else {
        None
    }
}

/// Decode a request body: `Some` of the posted username exactly where the
/// body is a JSON object with a string member `"username"` (other members
/// skipped), `None` on every other body.
pub fn parse_create_user(body: &str) -> (r: Option<String>)
    ensures
        (match r {
            Some(u) => spec_username_of(body@) == Some(u@),
            None => spec_username_of(body@) is None,
        }),
{
    let v = str_to_chars(body);
    let i0 = skip_ws_exec(&v, 0);
    if !(i0 < v.len()) {
        return None;
    }
    if v[i0] != '{' {
        return None;
    }
    let j = skip_ws_exec(&v, i0 + 1);
    if j < v.len() && v[j] == '}' {
        return None;
    }
    match parse_members_exec(&v, j, None, v.len()) {
        None => None,
        Some(p) => {
            if skip_ws_exec(&v, p.1) != v.len() {
                return None;
            }
            match p.0 {
                Some(u) => Some(chars_to_string(u)),
                None => None,
            }
        },
    }
}

/// The digit character for `n` in `0..10`.
pub open spec fn dec_digit(n: int) -> char {
    if n == 0 { '0' } else if n == 1 { '1' } else if n == 2 { '2' }
    else if n == 3 { '3' } else if n == 4 { '4' } else if n == 5 { '5' }
    else if n == 6 { '6' } else if n == 7 { '7' } else if n == 8 { '8' }
    else { '9' }
}

/// The decimal representation of `n`, most significant digit first, with no
/// leading zeros (a lone `0` for zero).
pub open spec fn dec_rep(n: int) -> Seq<char>
    decreases n,
{
    if n < 0 {
        Seq::empty()
    } else if n < 10 {
        seq![dec_digit(n)]
    } else {
        dec_rep(n / 10) + seq![dec_digit(n % 10)]
    }
}

/// Write `n` in decimal.
pub fn u64_to_string(n: u64) -> (r: String)
    ensures
        r@ == dec_rep(n as int),
{
    let mut digits: Vec<char> = Vec::new();
    let mut m: u64 = n;
    while m >= 10
        invariant
            dec_rep(n as int) == dec_rep(m as int) + digits@,
        decreases m,
    {
        let d = m % 10;
        let c: char = if d == 0 { '0' } else if d == 1 { '1' } else if d == 2 { '2' }
            else if d == 3 { '3' } else if d == 4 { '4' } else if d == 5 { '5' }
            else if d == 6 { '6' } else if d == 7 { '7' } else if d == 8 { '8' }
            else { '9' };
        let ghost prev = digits@;
        digits.insert(0, c);
        proof {
            assert(c == dec_digit(m as int % 10));
            assert(dec_rep(m as int) == dec_rep(m as int / 10) + seq![dec_digit(m as int % 10)]);
            assert(dec_rep(m as int / 10) + (seq![c] + prev) =~= (dec_rep(m as int / 10) + seq![c])
                + prev);
        }
        m = m / 10;
    }
    let c: char = if m == 0 { '0' } else if m == 1 { '1' } else if m == 2 { '2' }
        else if m == 3 { '3' } else if m == 4 { '4' } else if m == 5 { '5' }
        else if m == 6 { '6' } else if m == 7 { '7' } else if m == 8 { '8' }
        else { '9' };
    let ghost prev = digits@;
    digits.insert(0, c);
    proof {
        assert(c == dec_digit(m as int));
        assert(dec_rep(m as int) == seq![dec_digit(m as int)]);
        assert(seq![c] + prev =~= dec_rep(m as int) + prev);
    }
    chars_to_string(digits)
}

/// Write `s` as it stands inside a JSON string, escaping quotes,
/// backslashes and control characters.
pub fn escape_chars(v: &Vec<char>) -> (out: Vec<char>)
    ensures
        out@ == escape_string(v@),
{
    let n = v.len();
    let mut out: Vec<char> = Vec::new();
    let mut i: usize = 0;
    proof {
        assert(v@.subrange(0, n as int) =~= v@);
        assert(Seq::<char>::empty() + escape_string(v@) =~= escape_string(v@));
    }
    while i < n
        invariant
            n == v@.len(),
            i <= n,
            out@ + escape_string(v@.subrange(i as int, n as int)) == escape_string(v@),
        decreases n - i,
    {
        let ghost suffix = v@.subrange(i as int, n as int);
        let ghost prev = out@;
        let c = v[i];
        if c == '"' {
            out.push('\\');
            out.push('"');
        } else if c == '\\' {
            out.push('\\');
            out.push('\\');
        } else if (c as u32) < 0x20 {
            let u = c as u32;
            out.push('\\');
            out.push('u');
            out.push('0');
            out.push('0');
            let hi = u / 16;
            let lo = u % 16;
            let chi: char = if hi == 0 { '0' } else { '1' };
            let clo: char = if lo == 0 { '0' } else if lo == 1 { '1' } else if lo == 2 { '2' }
                else if lo == 3 { '3' } else if lo == 4 { '4' } else if lo == 5 { '5' }
                else if lo == 6 { '6' } else if lo == 7 { '7' } else if lo == 8 { '8' }
                else if lo == 9 { '9' } else if lo == 10 { 'a' } else if lo == 11 { 'b' }
                else if lo == 12 { 'c' } else if lo == 13 { 'd' } else if lo == 14 { 'e' }
                else { 'f' };
            proof {
                assert(chi == hex_digit(u as int / 16));
                assert(clo == hex_digit(u as int % 16));
            }
            out.push(chi);
            out.push(clo);
        } else {
            out.push(c);
        }
        proof {
            assert(suffix[0] == v@[i as int]);
            assert(suffix.subrange(1, suffix.len() as int) =~= v@.subrange(
                i as int + 1,
                n as int,
            ));
            assert(escape_string(suffix) == escape_char(v@[i as int]) + escape_string(
                v@.subrange(i as int + 1, n as int),
            ));
            assert(out@ =~= prev + escape_char(v@[i as int]));
            assert(out@ + escape_string(v@.subrange(i as int + 1, n as int)) =~= prev
                + escape_string(suffix));
        }
        i = i + 1;
    }
    proof {
        assert(escape_string(v@.subrange(n as int, n as int)) =~= Seq::<char>::empty());
        assert(out@ + Seq::<char>::empty() =~= out@);
    }
    out
}

/// The canonical request body carrying `username`: the one that
/// [`spec_create_user_body`] describes and the parser provably accepts.
pub fn create_user_body(username: &str) -> (r: String)
    ensures
        r@ == spec_create_user_body(username@),
{
    let mut out = String::from_str("{\"username\":\"");
    let escaped = chars_to_string(escape_chars(&str_to_chars(username)));
    out.append(escaped.as_str());
    out.append("\"}");
    out
}

// ---------------------------------------------------------------------------
// Round-trip laws
// ---------------------------------------------------------------------------

/// Characters that stand for themselves inside a JSON string.
pub open spec fn is_plain(c: char) -> bool {
    c != '"' && c != '\\' && !is_control(c)
}

/// A hexadecimal digit reads back as its value.
proof fn lemma_hex_digit_val(k: int)
    requires
        0 <= k < 16,
    ensures
        hex_val(hex_digit(k)) == k,
{
}

/// Law: parsing reverses escaping. Wherever `full` holds the escaped form
/// of `s` followed by a closing quote, the string parser recovers `s`
/// exactly and stops just past that quote.
pub proof fn lemma_parse_escape_string(full: Seq<char>, i: int, s: Seq<char>)
    requires
        0 <= i,
        i + escape_string(s).len() + 1 <= full.len(),
        full.subrange(i, i + escape_string(s).len() + 1) == escape_string(s) + seq!['"'],
    ensures
        parse_string_body(full, i) == Some((s, i + escape_string(s).len() + 1)),
    decreases s.len(),
{
    broadcast use vstd::utf8::char_is_scalar, vstd::utf8::char_u32_cast;

    let t = escape_string(s) + seq!['"'];
    assert forall|j: int| 0 <= j < t.len() implies full[i + j] == t[j] by {
        assert(full.subrange(i, i + escape_string(s).len() + 1)[j] == full[i + j]);
    }
    if s.len() == 0 {
        assert(full[i + 0] == t[0]);
        assert(full[i] == '"');
        assert(s =~= Seq::<char>::empty());
    } else {
        let c = s[0];
        let rest = s.subrange(1, s.len() as int);
        let ec = escape_char(c);
        let er = escape_string(rest);
        assert(escape_string(s) == ec + er);
        let next = i + ec.len();
        assert forall|j: int| 0 <= j < ec.len() implies full[i + j] == ec[j] by {
            assert(t[j] == (ec + er)[j]);
        }
        assert(full.subrange(next, next + er.len() + 1) =~= er + seq!['"']) by {
            assert forall|k: int| 0 <= k < er.len() + 1 implies full.subrange(
                next,
                next + er.len() + 1,
            )[k] == (er + seq!['"'])[k] by {
                assert(full.subrange(next, next + er.len() + 1)[k] == full[next + k]);
                assert(full[next + k] == t[ec.len() + k]);
                assert(t[ec.len() + k] == (er + seq!['"'])[k]);
            }
        }
        lemma_parse_escape_string(full, next, rest);
        assert(seq![c] + rest =~= s);
        if c == '"' {
            assert(full[i] == '\\' && full[i + 1] == '"');
        } else if c == '\\' {
            assert(full[i] == '\\' && full[i + 1] == '\\');
        } else if is_control(c) {
            let u = (c as u32) as int;
            assert(full[i] == '\\' && full[i + 1] == 'u');
            assert(full[i + 2] == '0' && full[i + 3] == '0');
            assert(full[i + 4] == hex_digit(u / 16) && full[i + 5] == hex_digit(u % 16));
            lemma_hex_digit_val(u / 16);
            lemma_hex_digit_val(u % 16);
            assert(hex4_val(full, i + 2) == u);
            assert(is_hex4(full, i + 2));
            assert(u < 0xD800);
            vstd::utf8::char_u32_cast(c, c as u32);
            assert(((u as u32) as char) == c);
        } else {
            assert(full[i] == c);
        }
    }
}

/// Law: a text without quotes, backslashes or control characters is its own
/// escaped form.
pub proof fn lemma_escape_plain(s: Seq<char>)
    requires
        forall|k: int| 0 <= k < s.len() ==> is_plain(s[k]),
    ensures
        escape_string(s) == s,
    decreases s.len(),
{
    if s.len() == 0 {
        assert(escape_string(s) =~= s);
    } else {
        let rest = s.subrange(1, s.len() as int);
        lemma_escape_plain(rest);
        assert(escape_char(s[0]) == seq![s[0]]);
        assert(seq![s[0]] + rest =~= s);
    }
}

/// The shape of the canonical request body: where each delimiter stands,
/// and what the two embedded strings parse back to.
#[verifier::rlimit(100)]
proof fn lemma_canonical_body_pieces(s: Seq<char>)
    ensures
        spec_create_user_body(s).len() == 15 + escape_string(s).len(),
        spec_create_user_body(s)[0] == '{',
        spec_create_user_body(s)[1] == '"',
        skip_ws(spec_create_user_body(s), 0) == 0,
        skip_ws(spec_create_user_body(s), 1) == 1,
        parse_string_body(spec_create_user_body(s), 2) == Some(("username"@, 11int)),
        skip_ws(spec_create_user_body(s), 11) == 11,
        spec_create_user_body(s)[11] == ':',
        skip_ws(spec_create_user_body(s), 12) == 12,
        spec_create_user_body(s)[12] == '"',
        parse_string_body(spec_create_user_body(s), 13) == Some(
            (s, 14 + escape_string(s).len() as int),
        ),
        skip_ws(spec_create_user_body(s), 14 + escape_string(s).len() as int) == 14
            + escape_string(s).len() as int,
        spec_create_user_body(s)[14 + escape_string(s).len() as int] == '}',
        skip_ws(spec_create_user_body(s), 15 + escape_string(s).len() as int) == 15
            + escape_string(s).len() as int,
{
    reveal_strlit("{\"username\":\"");
    reveal_strlit("\"}");
    reveal_strlit("username");
    let prefix = "{\"username\":\""@;
    let suffix = "\"}"@;
    let es = escape_string(s);
    let el = es.len() as int;
    let body = spec_create_user_body(s);
    assert(prefix =~= seq![
        '{', '"', 'u', 's', 'e', 'r', 'n', 'a', 'm', 'e', '"', ':', '"',
    ]);
    assert(suffix =~= seq!['"', '}']);
    assert("username"@ =~= seq!['u', 's', 'e', 'r', 'n', 'a', 'm', 'e']);
    assert(body.len() == 15 + el);
    assert forall|j: int| 0 <= j < 13 implies body[j] == prefix[j] by {
        assert((prefix + es)[j] == prefix[j]);
    }
    assert forall|j: int| 13 <= j < 13 + es.len() implies body[j] == es[j - 13] by {
        assert((prefix + es)[j] == es[j - 13]);
    }
    assert(body[13 + el] == '"');
    assert(body[14 + el] == '}');

    // The object opens at once: no leading whitespace.
    assert(skip_ws(body, 0) == 0);
    assert(body[0] == '{');
    assert(skip_ws(body, 1) == 1);
    assert(body[1] == '"');

    // The key reads back as `username`.
    let key = "username"@;
    assert(escape_string(key) == key) by {
        lemma_escape_plain(key);
    }
    assert(body.subrange(2, 2 + key.len() as int + 1) =~= key + seq!['"']) by {
        assert forall|k: int| 0 <= k < key.len() as int + 1 implies body.subrange(
            2,
            2 + key.len() as int + 1,
        )[k] == (key + seq!['"'])[k] by {
            assert(body.subrange(2, 2 + key.len() as int + 1)[k] == body[2 + k]);
        }
    }
    lemma_parse_escape_string(body, 2, key);
    assert(parse_string_body(body, 2) == Some((key, 11int)));

    // Colon, then the value.
    assert(skip_ws(body, 11) == 11);
    assert(body[11] == ':');
    assert(skip_ws(body, 12) == 12);
    assert(body[12] == '"');
    assert(body.subrange(13, 13 + el + 1) =~= es + seq!['"']) by {
        assert forall|k: int| 0 <= k < el + 1 implies body.subrange(
            13,
            13 + el + 1,
        )[k] == (es + seq!['"'])[k] by {
            assert(body.subrange(13, 13 + el + 1)[k] == body[13 + k]);
        }
    }
    lemma_parse_escape_string(body, 13, s);
    assert(parse_string_body(body, 13) == Some((s, 14 + el)));

    // The object closes and the body ends.
    assert(skip_ws(body, 14 + el) == 14 + el);
    assert(skip_ws(body, 15 + el) == 15 + el);
}

/// Law: every username round-trips. The canonical request body for `s`
/// decodes to exactly `s`, whatever characters `s` holds: the member walk
/// finds the one `username` member and nothing after it.
pub proof fn lemma_create_user_body_round_trip(s: Seq<char>)
    ensures
        spec_username_of(spec_create_user_body(s)) == Some(s),
{
    lemma_canonical_body_pieces(s);
    let body = spec_create_user_body(s);
    let el = escape_string(s).len() as int;
    let fuel = body.len() as nat;
    assert(fuel >= 15);
    assert(parse_members_tail(body, 14 + el, Some(s), fuel) == Some((Some(s), 15 + el)));
    assert(parse_members(body, 1, None, fuel) == Some((Some(s), 15 + el)));
    assert(body[1] != '}');
    assert(spec_username_of(body) == Some(s));
}

/// Law: escaping is injective — distinct texts have distinct escaped forms.
pub proof fn lemma_escape_injective(s1: Seq<char>, s2: Seq<char>)
    requires
        escape_string(s1) == escape_string(s2),
    ensures
        s1 == s2,
{
    let full = escape_string(s1) + seq!['"'];
    assert(full.subrange(0, escape_string(s1).len() as int + 1) =~= full);
    lemma_parse_escape_string(full, 0, s1);
    lemma_parse_escape_string(full, 0, s2);
}

} // verus!
