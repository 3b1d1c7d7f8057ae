//! Reading JSON text into the document model. An object that repeats a key
//! is refused with its own failure, so a document never means two things.

use vstd::prelude::*;
use crate::json::{Json, JsonValue, view_items, view_members, view_member, lemma_view_members};
use crate::text::{char_from_code, string_from_chars, same_text};

verus! {

/// Why a text is not accepted as one JSON document.
#[derive(Clone, Copy, Debug, PartialEq, Eq, Structural)]
pub enum ReadFailure {
    /// Not JSON: a syntax error, trailing text, or nesting deeper than
    /// `MAX_NESTING`.
    Malformed,
    /// An object repeats a key.
    DuplicateKey,
}

/// Deepest nesting of arrays and objects that is read.
pub const MAX_NESTING: u32 = 127;

/// JSON white space.
pub open spec fn is_json_ws(c: char) -> bool {
    c == ' ' || c == '\t' || c == '\n' || c == '\r'
}

/// The first position at or after `i` that is not white space.
pub open spec fn skip_ws(s: Seq<char>, i: int) -> int
    decreases s.len() - i,
{
    if 0 <= i < s.len() && is_json_ws(s[i]) {
        skip_ws(s, i + 1)
    } else {
        i
    }
}

pub open spec fn is_digit(c: char) -> bool {
    48 <= (c as u32) <= 57
}

/// The first position at or after `i` that is not a decimal digit.
pub open spec fn digits_end(s: Seq<char>, i: int) -> int
    decreases s.len() - i,
{
    if 0 <= i < s.len() && is_digit(s[i]) {
        digits_end(s, i + 1)
    } else {
        i
    }
}

/// The value of a hexadecimal digit, or -1.
pub open spec fn hex_value(c: char) -> int {
    let u = c as u32;
    if 48 <= u <= 57 {
        u - 48
    } else if 65 <= u <= 70 {
        u - 55
    } else if 97 <= u <= 102 {
        u - 87
    } else {
        -1
    }
}

/// The value of the four hexadecimal digits at `i`, or -1.
pub open spec fn hex4(s: Seq<char>, i: int) -> int {
    if 0 <= i && i + 4 <= s.len() && hex_value(s[i]) >= 0 && hex_value(s[i + 1]) >= 0
        && hex_value(s[i + 2]) >= 0 && hex_value(s[i + 3]) >= 0 {
        4096 * hex_value(s[i]) + 256 * hex_value(s[i + 1]) + 16 * hex_value(s[i + 2]) + hex_value(
            s[i + 3],
        )
    } else {
        -1
    }
}

/// The character whose code is `n`.
pub open spec fn char_with_code(n: int) -> char {
    choose|c: char| #[trigger] code_of(c) == n
}

pub open spec fn code_of(c: char) -> int {
    c as u32 as int
}

proof fn lemma_char_with_code(c: char)
    ensures
        char_with_code(code_of(c)) == c,
{
    let w = char_with_code(code_of(c));
    assert(code_of(w) == code_of(c));
    assert(w as u32 == c as u32);
}

/// The character an escape sequence stands for, and the position after it;
/// `i` is just after the backslash. A `\u` escape of a UTF-16 surrogate must
/// be a leading surrogate followed by `\u` and a trailing one.
pub open spec fn read_escape(s: Seq<char>, i: int) -> Option<(char, int)> {
    if !(0 <= i < s.len()) {
        None
    } else {
        let e = s[i];
        if e == '"' {
            Some(('"', i + 1))
        } else if e == '\\' {
            Some(('\\', i + 1))
        } else if e == '/' {
            Some(('/', i + 1))
        } else if e == 'b' {
            Some(('\u{8}', i + 1))
        } else if e == 'f' {
            Some(('\u{c}', i + 1))
        } else if e == 'n' {
            Some(('\n', i + 1))
        } else if e == 'r' {
            Some(('\r', i + 1))
        } else if e == 't' {
            Some(('\t', i + 1))
        } else if e == 'u' {
            let n = hex4(s, i + 1);
            if n < 0 || (0xDC00 <= n <= 0xDFFF) {
                None
            } else if n < 0xD800 || n > 0xDBFF {
                Some((char_with_code(n), i + 5))
            } else if i + 6 < s.len() && s[i + 5] == '\\' && s[i + 6] == 'u' && 0xDC00 <= hex4(
                s,
                i + 7,
            ) <= 0xDFFF {
                Some(
                    (char_with_code(0x10000 + (n - 0xD800) * 1024 + (hex4(s, i + 7) - 0xDC00)), i + 11),
                )
            } else {
                None
            }
        } else {
            None
        }
    }
}

/// The characters of a string literal from `i` (just after the opening
/// quote), appended to `acc`, and the position after the closing quote.
/// Control characters must be escaped.
pub open spec fn read_chars(s: Seq<char>, i: int, acc: Seq<char>) -> Option<(Seq<char>, int)>
    decreases s.len() - i,
{
    if !(0 <= i < s.len()) {
        None
    } else if s[i] == '"' {
        Some((acc, i + 1))
    } else if (s[i] as u32) < 0x20 {
        None
    } else if s[i] == '\\' {
        match read_escape(s, i + 1) {
            Some((c, j)) => if j > i {
                read_chars(s, j, acc.push(c))
            } else {
                None
            },
            None => None,
        }
    } else {
        read_chars(s, i + 1, acc.push(s[i]))
    }
}

/// Whether `serde_json` reads the text as one JSON value
/// (`serde_json::from_str::<serde_json::Value>` succeeds). On a number
/// literal this fails exactly when the number lies outside the range of
/// `f64`, the limit every JSON number is held to.
pub uninterp spec fn serde_json_reads(text: Seq<char>) -> bool;

/// Calls `serde_json::from_str::<serde_json::Value>`. Claimed: the result is
/// the named result `serde_json_reads` of the text.
#[verifier::external_body]
fn number_in_range(text: &str) -> (ok: bool)
    ensures
        ok == serde_json_reads(text@),
{
    serde_json::from_str::<serde_json::Value>(text).is_ok()
}

/// The end of the number that starts at `i`: an optional minus, `0` or a
/// digit run not starting with `0`, an optional fraction and an optional
/// exponent, each with at least one digit.
pub open spec fn number_end(s: Seq<char>, i: int) -> Option<int> {
    let a = if 0 <= i < s.len() && s[i] == '-' {
        i + 1
    } else {
        i
    };
    if !(0 <= a < s.len() && is_digit(s[a])) {
        None
    } else {
        let b = if s[a] == '0' {
            a + 1
        } else {
            digits_end(s, a)
        };
        let fraction = b < s.len() && s[b] == '.';
        let c = if fraction {
            digits_end(s, b + 1)
        } else {
            b
        };
        if fraction && c == b + 1 {
            None
        } else if c < s.len() && (s[c] == 'e' || s[c] == 'E') {
            let f = if c + 1 < s.len() && (s[c + 1] == '+' || s[c + 1] == '-') {
                c + 2
            } else {
                c + 1
            };
            if digits_end(s, f) == f {
                None
            } else {
                Some(digits_end(s, f))
            }
        } else {
            Some(c)
        }
    }
}

pub open spec fn null_at(s: Seq<char>, i: int) -> bool {
    0 <= i && i + 4 <= s.len() && s[i] == 'n' && s[i + 1] == 'u' && s[i + 2] == 'l' && s[i + 3]
        == 'l'
}

pub open spec fn true_at(s: Seq<char>, i: int) -> bool {
    0 <= i && i + 4 <= s.len() && s[i] == 't' && s[i + 1] == 'r' && s[i + 2] == 'u' && s[i + 3]
        == 'e'
}

pub open spec fn false_at(s: Seq<char>, i: int) -> bool {
    0 <= i && i + 5 <= s.len() && s[i] == 'f' && s[i + 1] == 'a' && s[i + 2] == 'l' && s[i + 3]
        == 's' && s[i + 4] == 'e'
}

/// Whether some member already has the key.
pub open spec fn has_key(members: Seq<(Seq<char>, Json)>, key: Seq<char>) -> bool {
    exists|m: int| 0 <= m < members.len() && (#[trigger] members[m]).0 == key
}

/// The value that starts at `i` after white space, and the position after
/// it. `fuel` bounds how many arrays and objects may still be opened.
pub open spec fn read_value(s: Seq<char>, i: int, fuel: nat) -> Result<(Json, int), ReadFailure>
    decreases fuel, 0int, 0int,
{
    let j = skip_ws(s, i);
    if !(0 <= j < s.len()) {
        Err(ReadFailure::Malformed)
    } else if s[j] == '[' {
        if fuel == 0 {
            Err(ReadFailure::Malformed)
        } else {
            read_items(s, j + 1, (fuel - 1) as nat, Seq::empty())
        }
    } else if s[j] == '{' {
        if fuel == 0 {
            Err(ReadFailure::Malformed)
        } else {
            read_members(s, j + 1, (fuel - 1) as nat, Seq::empty())
        }
    } else if s[j] == '"' {
        match read_chars(s, j + 1, Seq::empty()) {
            Some((t, k)) => Ok((Json::Str(t), k)),
            None => Err(ReadFailure::Malformed),
        }
    } else if null_at(s, j) {
        Ok((Json::Null, j + 4))
    } else if true_at(s, j) {
        Ok((Json::Bool(true), j + 4))
    } else if false_at(s, j) {
        Ok((Json::Bool(false), j + 5))
    } else {
        match number_end(s, j) {
            Some(k) => if serde_json_reads(s.subrange(j, k)) {
                Ok((Json::Number(s.subrange(j, k)), k))
            } else {
                Err(ReadFailure::Malformed)
            },
            None => Err(ReadFailure::Malformed),
        }
    }
}

/// The rest of an array whose items so far are `acc`, from `i`.
pub open spec fn read_items(s: Seq<char>, i: int, fuel: nat, acc: Seq<Json>) -> Result<
    (Json, int),
    ReadFailure,
>
    decreases fuel, 1int, s.len() - i,
{
    let j = skip_ws(s, i);
    if acc.len() == 0 && 0 <= j < s.len() && s[j] == ']' {
        Ok((Json::Array(acc), j + 1))
    } else {
        match read_value(s, j, fuel) {
            Err(e) => Err(e),
            Ok((v, k)) => {
                let k2 = skip_ws(s, k);
                if !(0 <= k2 < s.len()) {
                    Err(ReadFailure::Malformed)
                } else if s[k2] == ']' {
                    Ok((Json::Array(acc.push(v)), k2 + 1))
                } else if s[k2] == ',' && k2 + 1 > i {
                    read_items(s, k2 + 1, fuel, acc.push(v))
                } else {
                    Err(ReadFailure::Malformed)
                }
            },
        }
    }
}

/// The rest of an object whose members so far are `acc`, from `i`. A key is
/// checked against the earlier ones as soon as it is read.
pub open spec fn read_members(s: Seq<char>, i: int, fuel: nat, acc: Seq<(Seq<char>, Json)>) -> Result<
    (Json, int),
    ReadFailure,
>
    decreases fuel, 1int, s.len() - i,
{
    let j = skip_ws(s, i);
    if !(0 <= j < s.len()) {
        Err(ReadFailure::Malformed)
    } else if acc.len() == 0 && s[j] == '}' {
        Ok((Json::Object(acc), j + 1))
    } else if s[j] != '"' {
        Err(ReadFailure::Malformed)
    } else {
        match read_chars(s, j + 1, Seq::empty()) {
            None => Err(ReadFailure::Malformed),
            Some((key, k)) => if has_key(acc, key) {
                Err(ReadFailure::DuplicateKey)
            } else {
                let k1 = skip_ws(s, k);
                if !(0 <= k1 < s.len() && s[k1] == ':') {
                    Err(ReadFailure::Malformed)
                } else {
                    match read_value(s, k1 + 1, fuel) {
                        Err(e) => Err(e),
                        Ok((v, m)) => {
                            let m2 = skip_ws(s, m);
                            if !(0 <= m2 < s.len()) {
                                Err(ReadFailure::Malformed)
                            } else if s[m2] == '}' {
                                Ok((Json::Object(acc.push((key, v))), m2 + 1))
                            } else if s[m2] == ',' && m2 + 1 > i {
                                read_members(s, m2 + 1, fuel, acc.push((key, v)))
                            } else {
                                Err(ReadFailure::Malformed)
                            }
                        },
                    }
                }
            },
        }
    }
}

/// The document a text holds: one value, with only white space around it.
pub open spec fn read_document(s: Seq<char>) -> Result<Json, ReadFailure> {
    match read_value(s, 0, MAX_NESTING as nat) {
        Err(e) => Err(e),
        Ok((v, k)) => if skip_ws(s, k) == s.len() {
            Ok(v)
        } else {
            Err(ReadFailure::Malformed)
        },
    }
}

} // verus!

verus! {

fn json_ws(c: char) -> (w: bool)
    ensures
        w == is_json_ws(c),
{
    c == ' ' || c == '\t' || c == '\n' || c == '\r'
}

fn digit(c: char) -> (d: bool)
    ensures
        d == is_digit(c),
{
    let u = c as u32;
    48 <= u && u <= 57
}

fn skip_ws_at(s: &Vec<char>, i: usize) -> (j: usize)
    requires
        i <= s@.len(),
    ensures
        j == skip_ws(s@, i as int),
        i <= j <= s@.len(),
{
    let mut p = i;
    while p < s.len() && json_ws(s[p])
        invariant
            i <= p <= s@.len(),
            skip_ws(s@, i as int) == skip_ws(s@, p as int),
        decreases s@.len() - p,
    {
        p = p + 1;
    }
    p
}

fn digits_end_at(s: &Vec<char>, i: usize) -> (j: usize)
    requires
        i <= s@.len(),
    ensures
        j == digits_end(s@, i as int),
        i <= j <= s@.len(),
        i < s@.len() && is_digit(s@[i as int]) ==> j > i,
{
    let mut p = i;
    while p < s.len() && digit(s[p])
        invariant
            i <= p <= s@.len(),
            digits_end(s@, i as int) == digits_end(s@, p as int),
        decreases s@.len() - p,
    {
        p = p + 1;
    }
    p
}

fn hex_digit_value(c: char) -> (v: Option<u32>)
    ensures
        v is None <==> hex_value(c) < 0,
        v matches Some(n) ==> n == hex_value(c) && n < 16,
{
    let u = c as u32;
    if 48 <= u && u <= 57 {
        Some(u - 48)
    } else if 65 <= u && u <= 70 {
        Some(u - 55)
    } else if 97 <= u && u <= 102 {
        Some(u - 87)
    } else {
        None
    }
}

fn hex4_at(s: &Vec<char>, i: usize) -> (v: Option<u32>)
    ensures
        v is None <==> hex4(s@, i as int) < 0,
        v matches Some(n) ==> n == hex4(s@, i as int) && n < 0x10000,
{
    if i > s.len() || s.len() - i < 4 {
        return None;
    }
    let a = match hex_digit_value(s[i]) {
        Some(x) => x,
        None => return None,
    };
    let b = match hex_digit_value(s[i + 1]) {
        Some(x) => x,
        None => return None,
    };
    let c = match hex_digit_value(s[i + 2]) {
        Some(x) => x,
        None => return None,
    };
    let d = match hex_digit_value(s[i + 3]) {
        Some(x) => x,
        None => return None,
    };
    Some(4096 * a + 256 * b + 16 * c + d)
}

fn read_escape_at(s: &Vec<char>, i: usize) -> (r: Option<(char, usize)>)
    requires
        i <= s@.len(),
    ensures
        match r {
            Some((c, j)) => read_escape(s@, i as int) == Some((c, j as int)) && j <= s@.len(),
            None => read_escape(s@, i as int) is None,
        },
{
    if i >= s.len() {
        return None;
    }
    let e = s[i];
    if e == '"' {
        Some(('"', i + 1))
    } else if e == '\\' {
        Some(('\\', i + 1))
    } else if e == '/' {
        Some(('/', i + 1))
    } else if e == 'b' {
        Some(('\u{8}', i + 1))
    } else if e == 'f' {
        Some(('\u{c}', i + 1))
    } else if e == 'n' {
        Some(('\n', i + 1))
    } else if e == 'r' {
        Some(('\r', i + 1))
    } else if e == 't' {
        Some(('\t', i + 1))
    } else if e == 'u' {
        let n = match hex4_at(s, i + 1) {
            Some(n) => n,
            None => return None,
        };
        if 0xDC00 <= n && n <= 0xDFFF {
            None
        } else if n < 0xD800 || n > 0xDBFF {
            match char_from_code(n) {
                Some(c) => {
                    proof {
                        lemma_char_with_code(c);
                    }
                    Some((c, i + 5))
                },
                None => None,
            }
        } else if s.len() - i > 6 && s[i + 5] == '\\' && s[i + 6] == 'u' {
            let m = match hex4_at(s, i + 7) {
                Some(m) => m,
                None => return None,
            };
            if 0xDC00 <= m && m <= 0xDFFF {
                let code = 0x10000 + (n - 0xD800) * 1024 + (m - 0xDC00);
                match char_from_code(code) {
                    Some(c) => {
                        proof {
                            lemma_char_with_code(c);
                        }
                        Some((c, i + 11))
                    },
                    None => None,
                }
            } else {
                None
            }
        } else {
            None
        }
    } else {
        None
    }
}


/// The characters of the string literal whose body starts at `i`, and the
/// position after its closing quote.
fn read_chars_at(s: &Vec<char>, i: usize) -> (r: Option<(Vec<char>, usize)>)
    requires
        i <= s@.len(),
    ensures
        match r {
            Some((t, k)) => read_chars(s@, i as int, Seq::empty()) == Some((t@, k as int)) && i < k
                <= s@.len(),
            None => read_chars(s@, i as int, Seq::empty()) is None,
        },
{
    let mut acc: Vec<char> = Vec::new();
    let mut p = i;
    loop
        invariant
            i <= p <= s@.len(),
            read_chars(s@, i as int, Seq::empty()) == read_chars(s@, p as int, acc@),
        decreases s@.len() - p,
    {
        if p >= s.len() {
            return None;
        }
        let c = s[p];
        if c == '"' {
            return Some((acc, p + 1));
        } else if (c as u32) < 0x20 {
            return None;
        } else if c == '\\' {
            match read_escape_at(s, p + 1) {
                Some((e, j)) => {
                    if j <= p {
                        return None;
                    }
                    acc.push(e);
                    p = j;
                },
                None => return None,
            }
        } else {
            acc.push(c);
            p = p + 1;
        }
    }
}

/// The end of the number that starts at `i`.
fn number_end_at(s: &Vec<char>, i: usize) -> (r: Option<usize>)
    requires
        i <= s@.len(),
    ensures
        match r {
            Some(k) => number_end(s@, i as int) == Some(k as int) && i < k <= s@.len(),
            None => number_end(s@, i as int) is None,
        },
{
    let a = if i < s.len() && s[i] == '-' {
        i + 1
    } else {
        i
    };
    if !(a < s.len() && digit(s[a])) {
        return None;
    }
    let b = if s[a] == '0' {
        a + 1
    } else {
        digits_end_at(s, a)
    };
    let fraction = b < s.len() && s[b] == '.';
    let c = if fraction {
        digits_end_at(s, b + 1)
    } else {
        b
    };
    if fraction && c == b + 1 {
        None
    } else if c < s.len() && (s[c] == 'e' || s[c] == 'E') {
        let f = if c + 1 < s.len() && (s[c + 1] == '+' || s[c + 1] == '-') {
            c + 2
        } else {
            c + 1
        };
        let g = digits_end_at(s, f);
        if g == f {
            None
        } else {
            Some(g)
        }
    } else {
        Some(c)
    }
}

fn null_at_exec(s: &Vec<char>, i: usize) -> (b: bool)
    requires
        i <= s@.len(),
    ensures
        b == null_at(s@, i as int),
{
    s.len() - i >= 4 && s[i] == 'n' && s[i + 1] == 'u' && s[i + 2] == 'l' && s[i + 3] == 'l'
}

fn true_at_exec(s: &Vec<char>, i: usize) -> (b: bool)
    requires
        i <= s@.len(),
    ensures
        b == true_at(s@, i as int),
{
    s.len() - i >= 4 && s[i] == 't' && s[i + 1] == 'r' && s[i + 2] == 'u' && s[i + 3] == 'e'
}

fn false_at_exec(s: &Vec<char>, i: usize) -> (b: bool)
    requires
        i <= s@.len(),
    ensures
        b == false_at(s@, i as int),
{
    s.len() - i >= 5 && s[i] == 'f' && s[i + 1] == 'a' && s[i + 2] == 'l' && s[i + 3] == 's'
        && s[i + 4] == 'e'
}

/// Whether some member already has the key.
fn key_present(members: &Vec<(String, JsonValue)>, key: &str) -> (b: bool)
    ensures
        b == has_key(view_members(members@), key@),
{
    proof {
        lemma_view_members(members@);
    }
    let mut m: usize = 0;
    while m < members.len()
        invariant
            0 <= m <= members@.len(),
            view_members(members@).len() == members@.len(),
            forall|x: int|
                0 <= x < members@.len() ==> view_members(members@)[x] == view_member(
                    #[trigger] members@[x],
                ),
            forall|x: int| 0 <= x < m ==> view_members(members@)[x].0 != key@,
        decreases members@.len() - m,
    {
        if same_text(members[m].0.as_str(), key) {
            assert(view_members(members@)[m as int].0 == key@);
            return true;
        }
        m = m + 1;
    }
    false
}

fn copy_range(s: &Vec<char>, from: usize, to: usize) -> (out: Vec<char>)
    requires
        from <= to <= s@.len(),
    ensures
        out@ == s@.subrange(from as int, to as int),
{
    let mut out: Vec<char> = Vec::new();
    let mut p = from;
    while p < to
        invariant
            from <= p <= to <= s@.len(),
            out@ == s@.subrange(from as int, p as int),
        decreases to - p,
    {
        out.push(s[p]);
        p = p + 1;
        assert(out@ =~= s@.subrange(from as int, p as int));
    }
    out
}

/// The value that starts at `i` after white space, and the position after it.
fn read_value_at(s: &Vec<char>, i: usize, fuel: u32) -> (r: Result<(JsonValue, usize), ReadFailure>)
    requires
        i <= s@.len(),
    ensures
        match r {
            Ok((v, k)) => read_value(s@, i as int, fuel as nat) == Ok::<(Json, int), ReadFailure>(
                (v@, k as int),
            ) && i < k <= s@.len(),
            Err(e) => read_value(s@, i as int, fuel as nat) == Err::<(Json, int), ReadFailure>(e),
        },
    decreases fuel, 0int,
{
    let j = skip_ws_at(s, i);
    if j >= s.len() {
        return Err(ReadFailure::Malformed);
    }
    let c = s[j];
    if c == '[' {
        if fuel == 0 {
            return Err(ReadFailure::Malformed);
        }
        read_items_at(s, j + 1, fuel - 1)
    } else if c == '{' {
        if fuel == 0 {
            return Err(ReadFailure::Malformed);
        }
        read_members_at(s, j + 1, fuel - 1)
    } else if c == '"' {
        match read_chars_at(s, j + 1) {
            Some((t, k)) => Ok((JsonValue::Str(string_from_chars(t.as_slice())), k)),
            None => Err(ReadFailure::Malformed),
        }
    } else if null_at_exec(s, j) {
        Ok((JsonValue::Null, j + 4))
    } else if true_at_exec(s, j) {
        Ok((JsonValue::Bool(true), j + 4))
    } else if false_at_exec(s, j) {
        Ok((JsonValue::Bool(false), j + 5))
    } else {
        match number_end_at(s, j) {
            Some(k) => {
                let digits = copy_range(s, j, k);
                let text = string_from_chars(digits.as_slice());
                if number_in_range(text.as_str()) {
                    Ok((JsonValue::Number(text), k))
                } else {
                    Err(ReadFailure::Malformed)
                }
            },
            None => Err(ReadFailure::Malformed),
        }
    }
}

/// The items of the array whose body starts at `i`.
fn read_items_at(s: &Vec<char>, i: usize, fuel: u32) -> (r: Result<(JsonValue, usize), ReadFailure>)
    requires
        i <= s@.len(),
    ensures
        match r {
            Ok((v, k)) => read_items(s@, i as int, fuel as nat, Seq::empty()) == Ok::<
                (Json, int),
                ReadFailure,
            >((v@, k as int)) && i < k <= s@.len(),
            Err(e) => read_items(s@, i as int, fuel as nat, Seq::empty()) == Err::<
                (Json, int),
                ReadFailure,
            >(e),
        },
    decreases fuel, 1int,
{
    let mut items: Vec<JsonValue> = Vec::new();
    let mut p = i;
    assert(view_items(items@) =~= Seq::<Json>::empty());
    loop
        invariant
            i <= p <= s@.len(),
            read_items(s@, i as int, fuel as nat, Seq::empty()) == read_items(
                s@,
                p as int,
                fuel as nat,
                view_items(items@),
            ),
        decreases s@.len() - p,
    {
        proof {
            crate::json::lemma_view_items(items@);
        }
        let j = skip_ws_at(s, p);
        if items.len() == 0 && j < s.len() && s[j] == ']' {
            return Ok((JsonValue::Array(items), j + 1));
        }
        let (v, k) = match read_value_at(s, j, fuel) {
            Err(e) => return Err(e),
            Ok(pair) => pair,
        };
        let k2 = skip_ws_at(s, k);
        if k2 >= s.len() {
            return Err(ReadFailure::Malformed);
        }
        if s[k2] == ']' {
            crate::json::push_item(&mut items, v);
            return Ok((JsonValue::Array(items), k2 + 1));
        }
        if s[k2] != ',' {
            return Err(ReadFailure::Malformed);
        }
        crate::json::push_item(&mut items, v);
        p = k2 + 1;
    }
}

/// The members of the object whose body starts at `i`.
fn read_members_at(s: &Vec<char>, i: usize, fuel: u32) -> (r: Result<(JsonValue, usize), ReadFailure>)
    requires
        i <= s@.len(),
    ensures
        match r {
            Ok((v, k)) => read_members(s@, i as int, fuel as nat, Seq::empty()) == Ok::<
                (Json, int),
                ReadFailure,
            >((v@, k as int)) && i < k <= s@.len(),
            Err(e) => read_members(s@, i as int, fuel as nat, Seq::empty()) == Err::<
                (Json, int),
                ReadFailure,
            >(e),
        },
    decreases fuel, 1int,
{
    let mut members: Vec<(String, JsonValue)> = Vec::new();
    let mut p = i;
    assert(view_members(members@) =~= Seq::<(Seq<char>, Json)>::empty());
    loop
        invariant
            i <= p <= s@.len(),
            read_members(s@, i as int, fuel as nat, Seq::empty()) == read_members(
                s@,
                p as int,
                fuel as nat,
                view_members(members@),
            ),
        decreases s@.len() - p,
    {
        proof {
            lemma_view_members(members@);
        }
        let j = skip_ws_at(s, p);
        if j >= s.len() {
            return Err(ReadFailure::Malformed);
        }
        if members.len() == 0 && s[j] == '}' {
            return Ok((JsonValue::Object(members), j + 1));
        }
        if s[j] != '"' {
            return Err(ReadFailure::Malformed);
        }
        let (key_chars, k) = match read_chars_at(s, j + 1) {
            None => return Err(ReadFailure::Malformed),
            Some(pair) => pair,
        };
        let key = string_from_chars(key_chars.as_slice());
        if key_present(&members, key.as_str()) {
            return Err(ReadFailure::DuplicateKey);
        }
        let k1 = skip_ws_at(s, k);
        if !(k1 < s.len() && s[k1] == ':') {
            return Err(ReadFailure::Malformed);
        }
        let (v, m) = match read_value_at(s, k1 + 1, fuel) {
            Err(e) => return Err(e),
            Ok(pair) => pair,
        };
        let m2 = skip_ws_at(s, m);
        if m2 >= s.len() {
            return Err(ReadFailure::Malformed);
        }
        if s[m2] == '}' {
            crate::json::push_member(&mut members, key.as_str(), v);
            return Ok((JsonValue::Object(members), m2 + 1));
        }
        if s[m2] != ',' {
            return Err(ReadFailure::Malformed);
        }
        crate::json::push_member(&mut members, key.as_str(), v);
        p = m2 + 1;
    }
}

/// Read a text as one JSON document, refusing a repeated object key.
pub fn read_json(text: &str) -> (r: Result<JsonValue, ReadFailure>)
    ensures
        match r {
            Ok(v) => read_document(text@) == Ok::<Json, ReadFailure>(v@),
            Err(e) => read_document(text@) == Err::<Json, ReadFailure>(e),
        },
{
    let s = crate::text::str_chars(text);
    let (v, k) = match read_value_at(&s, 0, MAX_NESTING) {
        Err(e) => return Err(e),
        Ok(pair) => pair,
    };
    if skip_ws_at(&s, k) == s.len() {
        Ok(v)
    } else {
        Err(ReadFailure::Malformed)
    }
}

} // verus!
