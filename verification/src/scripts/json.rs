//! The small JSON reader the mp3 renderer uses for its dataset: enough for
//! a flat array of flat objects, with numbers kept as their literal text.
use vstd::prelude::*;
use vstd::utf8::{encode_utf8, is_scalar};

use crate::decimal::{all_digits, decimal_seq, is_digit, push_decimal};
use crate::text::{chars_of, first_index, is_white, is_whitespace, lemma_first_index_is, push_char};

verus! {

/// A JSON value as read: numbers keep their literal text.
#[derive(Debug)]
pub enum Json {
    Number(String),
    Str(String),
    Array(Vec<Json>),
    Object(Vec<(String, Json)>),
    Bool,
    Null,
}

/// A JSON value with its texts as character sequences.
pub enum JsonValue {
    Number(Seq<char>),
    Str(Seq<char>),
    Array(Seq<JsonValue>),
    Object(Seq<(Seq<char>, JsonValue)>),
    Bool,
    Null,
}

/// The value a [`Json`] stands for.
pub open spec fn json_value(j: Json) -> JsonValue
    decreases j, 0int,
{
    match j {
        Json::Number(t) => JsonValue::Number(t@),
        Json::Str(t) => JsonValue::Str(t@),
        Json::Array(items) => {
            proof {
                assert(decreases_to!(items => items@));
            }
            JsonValue::Array(items_view(items@))
        },
        Json::Object(fields) => {
            proof {
                assert(decreases_to!(fields => fields@));
            }
            JsonValue::Object(entries_view(fields@))
        },
        Json::Bool => JsonValue::Bool,
        Json::Null => JsonValue::Null,
    }
}

/// The values of a sequence of elements.
pub open spec fn items_view(v: Seq<Json>) -> Seq<JsonValue>
    decreases v, 1int,
{
    if v.len() == 0 {
        Seq::empty()
    } else {
        proof {
            assert(decreases_to!(v => v.subrange(0, v.len() - 1)));
            assert(decreases_to!(v => v[v.len() - 1]));
        }
        items_view(v.subrange(0, v.len() - 1)).push(json_value(v[v.len() - 1]))
    }
}

/// The members of an object, their keys as character sequences.
pub open spec fn entries_view(v: Seq<(String, Json)>) -> Seq<(Seq<char>, JsonValue)>
    decreases v, 1int,
{
    if v.len() == 0 {
        Seq::empty()
    } else {
        proof {
            assert(decreases_to!(v => v.subrange(0, v.len() - 1)));
            assert(decreases_to!(v => v[v.len() - 1]));
            assert(decreases_to!(v[v.len() - 1] => v[v.len() - 1].1));
        }
        entries_view(v.subrange(0, v.len() - 1)).push(
            (v[v.len() - 1].0@, json_value(v[v.len() - 1].1)),
        )
    }
}

/// Element `i` of a sequence of elements has the value the view gives it.
pub proof fn lemma_items_prefix(v: Seq<Json>, i: int)
    requires
        0 <= i < v.len(),
    ensures
        items_view(v).len() == v.len(),
        items_view(v)[i] == v[i]@,
    decreases v.len(),
{
    if i < v.len() - 1 {
        lemma_items_prefix(v.subrange(0, v.len() - 1), i);
    } else {
        lemma_items_len(v.subrange(0, v.len() - 1));
    }
    lemma_items_len(v);
}

pub proof fn lemma_items_len(v: Seq<Json>)
    ensures
        items_view(v).len() == v.len(),
    decreases v.len(),
{
    if v.len() > 0 {
        lemma_items_len(v.subrange(0, v.len() - 1));
    }
}

/// Member `i` of an object has its key's characters and its value's value.
pub proof fn lemma_entries_prefix(v: Seq<(String, Json)>, i: int)
    requires
        0 <= i < v.len(),
    ensures
        entries_view(v).len() == v.len(),
        entries_view(v)[i] == (v[i].0@, v[i].1@),
    decreases v.len(),
{
    if i < v.len() - 1 {
        lemma_entries_prefix(v.subrange(0, v.len() - 1), i);
    } else {
        lemma_entries_len(v.subrange(0, v.len() - 1));
    }
    lemma_entries_len(v);
}

pub proof fn lemma_entries_len(v: Seq<(String, Json)>)
    ensures
        entries_view(v).len() == v.len(),
    decreases v.len(),
{
    if v.len() > 0 {
        lemma_entries_len(v.subrange(0, v.len() - 1));
    }
}

impl View for Json {
    type V = JsonValue;

    open spec fn view(&self) -> JsonValue {
        json_value(*self)
    }
}

/// Index of the first character at or after `i` that is not whitespace.
pub open spec fn skip_ws_at(s: Seq<char>, i: int) -> int
    decreases s.len() - i,
{
    if 0 <= i < s.len() && is_white(s[i]) {
        skip_ws_at(s, i + 1)
    } else {
        i
    }
}

pub proof fn lemma_skip_ws(s: Seq<char>, i: int)
    ensures
        i <= skip_ws_at(s, i),
        i <= s.len() ==> skip_ws_at(s, i) <= s.len(),
        i < 0 ==> skip_ws_at(s, i) == i,
        forall|j: int| 0 <= i <= j < skip_ws_at(s, i) ==> is_white(#[trigger] s[j]),
        0 <= skip_ws_at(s, i) < s.len() ==> !is_white(s[skip_ws_at(s, i)]),
    decreases s.len() - i,
{
    if 0 <= i < s.len() && is_white(s[i]) {
        lemma_skip_ws(s, i + 1);
    }
}

/// What the character iterator yields at character `k`: the character's
/// byte offset and the character, or nothing past the end.
pub open spec fn byte_at(s: Seq<char>, k: int) -> Option<(usize, char)> {
    if 0 <= k < s.len() {
        Some((encode_utf8(s.take(k)).len() as usize, s[k]))
    } else {
        None
    }
}

/// What `{:?}` writes for a character: the character in single quotes,
/// escaped as `char::escape_debug` escapes it.
pub uninterp spec fn debug_char_text(c: char) -> Seq<char>;

/// What `{:?}` writes for an optional (byte offset, character) pair:
/// `None`, or `Some((` with the offset in decimal, `, `, the character as
/// `{:?}` writes it, and `))`.
pub open spec fn debug_indexed_text(p: Option<(usize, char)>) -> Seq<char> {
    match p {
        Some((n, c)) => "Some(("@ + decimal_seq(n as nat) + ", "@ + debug_char_text(c) + "))"@,
        None => "None"@,
    }
}

/// What `{:?}` writes for an optional character: `None`, or `Some(` with
/// the character as `{:?}` writes it, and `)`.
pub open spec fn debug_opt_char_text(p: Option<char>) -> Seq<char> {
    match p {
        Some(c) => "Some("@ + debug_char_text(c) + ")"@,
        None => "None"@,
    }
}

/// The position after character `k` if it is `c`, else the message saying
/// what was found instead.
pub open spec fn expect_at(s: Seq<char>, k: int, c: char) -> Result<int, Seq<char>> {
    if 0 <= k < s.len() && s[k] == c {
        Ok(k + 1)
    } else {
        Err("expected "@ + debug_char_text(c) + ", got "@ + debug_indexed_text(byte_at(s, k)))
    }
}

/// The position after `lit` spelled out from `k` on.
pub open spec fn literal_at(s: Seq<char>, k: int, lit: Seq<char>) -> Result<int, Seq<char>>
    decreases lit.len(),
{
    if lit.len() == 0 {
        Ok(k)
    } else {
        match expect_at(s, k, lit[0]) {
            Err(m) => Err(m),
            Ok(_) => literal_at(s, k + 1, lit.drop_first()),
        }
    }
}

pub open spec fn is_hex_digit(c: char) -> bool {
    let u = c as u32;
    (48 <= u <= 57) || (97 <= u <= 102) || (65 <= u <= 70)
}

pub open spec fn hex_value(c: char) -> nat {
    let u = c as u32;
    if 48 <= u <= 57 {
        (u - 48) as nat
    } else if 97 <= u <= 102 {
        (u - 87) as nat
    } else {
        (u - 55) as nat
    }
}

/// The number written by the `n` hexadecimal digits from `k` on, after
/// `code` read so far.
pub open spec fn hex_from(s: Seq<char>, k: int, n: nat, code: nat) -> Result<nat, Seq<char>>
    decreases n,
{
    if n == 0 {
        Ok(code)
    } else if !(0 <= k < s.len()) {
        Err("unterminated unicode escape"@)
    } else if !is_hex_digit(s[k]) {
        Err("invalid hex digit in unicode escape"@)
    } else {
        hex_from(s, k + 1, (n - 1) as nat, code * 16 + hex_value(s[k]))
    }
}

pub proof fn lemma_hex_from(s: Seq<char>, k: int, n: nat, code: nat)
    requires
        0 <= k <= s.len(),
    ensures
        hex_from(s, k, n, code) is Ok ==> k + n <= s.len(),
    decreases n,
{
    if n > 0 && 0 <= k < s.len() && is_hex_digit(s[k]) {
        lemma_hex_from(s, k + 1, (n - 1) as nat, code * 16 + hex_value(s[k]));
    }
}

/// The character a `\u` escape with code `code` stands for: the replacement
/// character where the code is not a Unicode scalar value.
pub open spec fn unicode_char(code: nat) -> char {
    if code <= u32::MAX && is_scalar(code as u32) {
        (code as u32) as char
    } else {
        '\u{FFFD}'
    }
}

/// The character a one-letter escape stands for.
pub open spec fn escape_of(e: char) -> Option<char> {
    if e == '"' {
        Some('"')
    } else if e == '\\' {
        Some('\\')
    } else if e == '/' {
        Some('/')
    } else if e == 'b' {
        Some('\u{8}')
    } else if e == 'f' {
        Some('\u{c}')
    } else if e == 'n' {
        Some('\n')
    } else if e == 'r' {
        Some('\r')
    } else if e == 't' {
        Some('\t')
    } else {
        None
    }
}

pub open spec fn prepend_char(c: char, r: Result<(Seq<char>, int), Seq<char>>) -> Result<
    (Seq<char>, int),
    Seq<char>,
> {
    match r {
        Ok((t, e)) => Ok((seq![c] + t, e)),
        Err(m) => Err(m),
    }
}

/// The text of a string literal from just after its opening quote at `k`,
/// and the position after its closing quote.
pub open spec fn string_body(s: Seq<char>, k: int) -> Result<(Seq<char>, int), Seq<char>>
    decreases s.len() - k,
{
    if !(0 <= k < s.len()) {
        Err("unterminated string"@)
    } else if s[k] == '"' {
        Ok((Seq::empty(), k + 1))
    } else if s[k] == '\\' {
        if k + 1 >= s.len() {
            Err("invalid escape: "@ + debug_indexed_text(None))
        } else if s[k + 1] == 'u' {
            match hex_from(s, k + 2, 4, 0) {
                Err(m) => Err(m),
                Ok(code) => {
                    proof {
                        lemma_hex_from(s, k + 2, 4, 0);
                    }
                    prepend_char(unicode_char(code), string_body(s, k + 6))
                },
            }
        } else {
            match escape_of(s[k + 1]) {
                Some(c) => prepend_char(c, string_body(s, k + 2)),
                None => Err("invalid escape: "@ + debug_indexed_text(byte_at(s, k + 1))),
            }
        }
    } else {
        prepend_char(s[k], string_body(s, k + 1))
    }
}

pub proof fn lemma_string_body(s: Seq<char>, k: int)
    ensures
        string_body(s, k) matches Ok((_, e)) ==> k < e <= s.len(),
    decreases s.len() - k,
{
    if 0 <= k < s.len() && s[k] != '"' {
        if s[k] == '\\' {
            if k + 1 < s.len() {
                if s[k + 1] == 'u' {
                    lemma_hex_from(s, k + 2, 4, 0);
                    if hex_from(s, k + 2, 4, 0) is Ok {
                        lemma_string_body(s, k + 6);
                    }
                } else {
                    lemma_string_body(s, k + 2);
                }
            }
        } else {
            lemma_string_body(s, k + 1);
        }
    }
}

/// A string literal starting at `k`: its text and the position after it.
pub open spec fn string_at(s: Seq<char>, k: int) -> Result<(Seq<char>, int), Seq<char>> {
    match expect_at(s, k, '"') {
        Err(m) => Err(m),
        Ok(_) => string_body(s, k + 1),
    }
}

pub proof fn lemma_string_at(s: Seq<char>, k: int)
    ensures
        string_at(s, k) matches Ok((_, e)) ==> k < e <= s.len(),
{
    lemma_string_body(s, k + 1);
}

/// The characters that can make up a number literal.
pub open spec fn is_number_char(c: char) -> bool {
    is_digit(c) || c == '-' || c == '+' || c == '.' || c == 'e' || c == 'E'
}

/// The end of the run of number characters from `k` on.
pub open spec fn number_end(s: Seq<char>, k: int) -> int
    decreases s.len() - k,
{
    if 0 <= k < s.len() && is_number_char(s[k]) {
        number_end(s, k + 1)
    } else {
        k
    }
}

pub proof fn lemma_number_end(s: Seq<char>, k: int)
    requires
        0 <= k <= s.len(),
    ensures
        k <= number_end(s, k) <= s.len(),
        forall|j: int| k <= j < number_end(s, k) ==> is_number_char(#[trigger] s[j]),
        number_end(s, k) < s.len() ==> !is_number_char(s[number_end(s, k)]),
    decreases s.len() - k,
{
    if k < s.len() && is_number_char(s[k]) {
        lemma_number_end(s, k + 1);
    }
}

pub open spec fn is_sign(c: char) -> bool {
    c == '+' || c == '-'
}

/// `t` without one leading sign.
pub open spec fn unsigned_part(t: Seq<char>) -> Seq<char> {
    if t.len() > 0 && is_sign(t[0]) {
        t.drop_first()
    } else {
        t
    }
}

/// Index of the first `e` or `E` in `r`, or its length.
pub open spec fn exp_index(r: Seq<char>) -> int
    decreases r.len(),
{
    if r.len() == 0 {
        0
    } else if r[0] == 'e' || r[0] == 'E' {
        0
    } else {
        1 + exp_index(r.drop_first())
    }
}

/// Digits with at most one decimal point and at least one digit.
pub open spec fn mantissa_ok(m: Seq<char>) -> bool {
    let d = first_index(m, '.');
    if d < m.len() {
        all_digits(m.take(d)) && all_digits(m.skip(d + 1)) && (d > 0 || m.len() > d + 1)
    } else {
        m.len() > 0 && all_digits(m)
    }
}

/// An optional sign and at least one digit.
pub open spec fn exponent_ok(x: Seq<char>) -> bool {
    unsigned_part(x).len() > 0 && all_digits(unsigned_part(x))
}

/// Whether `t` is a decimal floating-point literal as `f64::from_str`
/// documents them (its `inf` and `nan` forms aside, which hold letters a
/// number run never holds): an optional sign, digits with at most one
/// decimal point and at least one digit, then optionally `e` or `E`, an
/// optional sign and digits.
pub open spec fn is_float_literal(t: Seq<char>) -> bool {
    let r = unsigned_part(t);
    let p = exp_index(r);
    mantissa_ok(r.take(p)) && (p == r.len() || exponent_ok(r.skip(p + 1)))
}

/// The message of a refused number literal (`ParseFloatError`'s `Display`).
pub open spec fn float_error(t: Seq<char>) -> Seq<char> {
    if t.len() == 0 {
        "cannot parse float from empty string"@
    } else {
        "invalid float literal"@
    }
}

/// A number literal at `k`: the run of number characters, which must be a
/// float literal.
pub open spec fn number_at(s: Seq<char>, k: int) -> Result<(JsonValue, int), Seq<char>> {
    let e = number_end(s, k);
    let t = s.subrange(k, e);
    if is_float_literal(t) {
        Ok((JsonValue::Number(t), e))
    } else {
        Err(float_error(t))
    }
}

/// The value at `i`, after any whitespace, and the position after it.
pub open spec fn value_at(s: Seq<char>, i: int) -> Result<(JsonValue, int), Seq<char>>
    decreases s.len() - i, 2int,
{
    let j = skip_ws_at(s, i);
    proof {
        lemma_skip_ws(s, i);
    }
    if j >= s.len() {
        Err("unexpected token: "@ + debug_opt_char_text(None))
    } else {
        let c = s[j];
        if c == '{' {
            object_at(s, j)
        } else if c == '[' {
            array_at(s, j)
        } else if c == '"' {
            match string_at(s, j) {
                Ok((t, e)) => Ok((JsonValue::Str(t), e)),
                Err(m) => Err(m),
            }
        } else if c == 't' {
            match literal_at(s, j, "true"@) {
                Ok(e) => Ok((JsonValue::Bool, e)),
                Err(m) => Err(m),
            }
        } else if c == 'f' {
            match literal_at(s, j, "false"@) {
                Ok(e) => Ok((JsonValue::Bool, e)),
                Err(m) => Err(m),
            }
        } else if c == 'n' {
            match literal_at(s, j, "null"@) {
                Ok(e) => Ok((JsonValue::Null, e)),
                Err(m) => Err(m),
            }
        } else if c == '-' || is_digit(c) {
            number_at(s, j)
        } else {
            Err("unexpected token: "@ + debug_opt_char_text(Some(c)))
        }
    }
}

/// An object at `j`: `{`, then either `}` or its members.
pub open spec fn object_at(s: Seq<char>, j: int) -> Result<(JsonValue, int), Seq<char>>
    decreases s.len() - j, 1int,
{
    if !(0 <= j < s.len() && s[j] == '{') {
        Err("expected "@ + debug_char_text('{') + ", got "@ + debug_indexed_text(byte_at(s, j)))
    } else {
        let k = skip_ws_at(s, j + 1);
        proof {
            lemma_skip_ws(s, j + 1);
        }
        if 0 <= k < s.len() && s[k] == '}' {
            Ok((JsonValue::Object(Seq::empty()), k + 1))
        } else {
            match members_at(s, k) {
                Ok((m, e)) => Ok((JsonValue::Object(m), e)),
                Err(x) => Err(x),
            }
        }
    }
}

/// The members of an object from `k` on: `"key": value` pairs separated by
/// `,` and ended by `}`, and the position after the `}`.
pub open spec fn members_at(s: Seq<char>, k: int) -> Result<
    (Seq<(Seq<char>, JsonValue)>, int),
    Seq<char>,
>
    decreases s.len() - k, 3int,
{
    let a = skip_ws_at(s, k);
    proof {
        lemma_skip_ws(s, k);
        lemma_string_at(s, a);
    }
    match string_at(s, a) {
        Err(m) => Err(m),
        Ok((key, b)) => {
            let c = skip_ws_at(s, b);
            proof {
                lemma_skip_ws(s, b);
            }
            if !(0 <= c < s.len() && s[c] == ':') {
                Err("expected "@ + debug_char_text(':') + ", got "@ + debug_indexed_text(byte_at(s, c)))
            } else {
                match value_at(s, c + 1) {
                    Err(m) => Err(m),
                    Ok((v, d)) => {
                        let e = skip_ws_at(s, d);
                        if 0 <= e < s.len() && s[e] == ',' {
                            // the guard always holds (a value ends after it starts); it is
                            // what shows this definition terminates
                            if e + 1 > k {
                                match members_at(s, e + 1) {
                                    Ok((rest, f)) => Ok((seq![(key, v)] + rest, f)),
                                    Err(m) => Err(m),
                                }
                            } else {
                                Err(Seq::empty())
                            }
                        } else if 0 <= e < s.len() && s[e] == '}' {
                            Ok((seq![(key, v)], e + 1))
                        } else {
                            Err("expected ',' or '}', got "@ + debug_indexed_text(byte_at(s, e)))
                        }
                    },
                }
            }
        },
    }
}

/// An array at `j`: `[`, then either `]` or its elements.
pub open spec fn array_at(s: Seq<char>, j: int) -> Result<(JsonValue, int), Seq<char>>
    decreases s.len() - j, 1int,
{
    if !(0 <= j < s.len() && s[j] == '[') {
        Err("expected "@ + debug_char_text('[') + ", got "@ + debug_indexed_text(byte_at(s, j)))
    } else {
        let k = skip_ws_at(s, j + 1);
        proof {
            lemma_skip_ws(s, j + 1);
        }
        if 0 <= k < s.len() && s[k] == ']' {
            Ok((JsonValue::Array(Seq::empty()), k + 1))
        } else {
            match elements_at(s, k) {
                Ok((items, e)) => Ok((JsonValue::Array(items), e)),
                Err(x) => Err(x),
            }
        }
    }
}

/// The elements of an array from `k` on: values separated by `,` and ended
/// by `]`, and the position after the `]`.
pub open spec fn elements_at(s: Seq<char>, k: int) -> Result<(Seq<JsonValue>, int), Seq<char>>
    decreases s.len() - k, 3int,
{
    match value_at(s, k) {
        Err(m) => Err(m),
        Ok((v, d)) => {
            let e = skip_ws_at(s, d);
            if 0 <= e < s.len() && s[e] == ',' {
                // the guard always holds (a value ends after it starts); it is
                // what shows this definition terminates
                if e + 1 > k {
                    match elements_at(s, e + 1) {
                        Ok((rest, f)) => Ok((seq![v] + rest, f)),
                        Err(m) => Err(m),
                    }
                } else {
                    Err(Seq::empty())
                }
            } else if 0 <= e < s.len() && s[e] == ']' {
                Ok((seq![v], e + 1))
            } else {
                Err("expected ',' or ']', got "@ + debug_indexed_text(byte_at(s, e)))
            }
        },
    }
}

/// The `{:?}` rendering of a character (`<char as Debug>::fmt`).
#[verifier::external_body]
fn debug_char(c: char) -> (r: String)
    ensures
        r@ == debug_char_text(c),
{
    format!("{:?}", c)
}

/// The `{:?}` rendering of an optional (byte offset, character) pair.
fn debug_indexed(p: Option<(usize, char)>) -> (r: String)
    ensures
        r@ == debug_indexed_text(p),
{
    match p {
        Some((n, c)) => {
            let mut m = "Some((".to_owned();
            push_decimal(&mut m, n as u64);
            m.append(", ");
            m.append(debug_char(c).as_str());
            m.append("))");
            m
        },
        None => "None".to_owned(),
    }
}

/// The `{:?}` rendering of an optional character.
fn debug_opt_char(p: Option<char>) -> (r: String)
    ensures
        r@ == debug_opt_char_text(p),
{
    match p {
        Some(c) => {
            let mut m = "Some(".to_owned();
            m.append(debug_char(c).as_str());
            m.append(")");
            m
        },
        None => "None".to_owned(),
    }
}

/// The `k`-th item of `src.char_indices()`: as documented, the byte offset
/// at which the `k`-th character starts, and that character; nothing past
/// the last character.
#[verifier::external_body]
fn indexed_char(src: &str, k: usize) -> (r: Option<(usize, char)>)
    ensures
        r == byte_at(src@, k as int),
{
    src.char_indices().nth(k)
}

/// The character with the code `code` (`char::from_u32`): there is one
/// exactly when `code` is a Unicode scalar value.
#[verifier::external_body]
fn char_from_u32(code: u32) -> (r: Option<char>)
    ensures
        r is Some <==> is_scalar(code),
        r matches Some(c) ==> c as u32 == code,
{
    char::from_u32(code)
}

pub proof fn lemma_exp_index_is(r: Seq<char>, i: int)
    requires
        0 <= i <= r.len(),
        forall|j: int| 0 <= j < i ==> r[j] != 'e' && r[j] != 'E',
        i == r.len() || r[i] == 'e' || r[i] == 'E',
    ensures
        exp_index(r) == i,
    decreases i,
{
    if i > 0 {
        assert forall|j: int| 0 <= j < i - 1 implies r.drop_first()[j] != 'e' && r.drop_first()[j]
            != 'E' by {
            assert(r.drop_first()[j] == r[j + 1]);
        }
        lemma_exp_index_is(r.drop_first(), i - 1);
    }
}

/// Whether every character of `c` from `a` up to `b` is a decimal digit.
fn digits_between(c: &Vec<char>, a: usize, b: usize) -> (r: bool)
    requires
        a <= b <= c@.len(),
    ensures
        r == (forall|j: int| a <= j < b ==> is_digit(#[trigger] c@[j])),
{
    let mut i = a;
    while i < b
        invariant
            a <= i <= b <= c@.len(),
            forall|j: int| a <= j < i ==> is_digit(#[trigger] c@[j]),
        decreases b - i,
    {
        let u = c[i] as u32;
        if u < 48 || u > 57 {
            return false;
        }
        i = i + 1;
    }
    true
}

/// Whether the characters of `c` from `st` up to `p` form a mantissa.
fn mantissa_between(c: &Vec<char>, st: usize, p: usize) -> (r: bool)
    requires
        st <= p <= c@.len(),
    ensures
        r == mantissa_ok(c@.subrange(st as int, p as int)),
{
    let ghost m = c@.subrange(st as int, p as int);
    let mut d = st;
    while d < p && c[d] != '.'
        invariant
            st <= d <= p <= c@.len(),
            forall|j: int| st <= j < d ==> c@[j] != '.',
        decreases p - d,
    {
        d = d + 1;
    }
    proof {
        assert forall|j: int| 0 <= j < d - st implies m[j] != '.' by {
            assert(m[j] == c@[j + st]);
        }
        if d < p {
            assert(m[d - st] == c@[d as int]);
        }
        lemma_first_index_is(m, '.', d - st);
    }
    if d < p {
        let before = digits_between(c, st, d);
        let after = digits_between(c, d + 1, p);
        proof {
            let m1 = m.take(d - st);
            let m2 = m.skip(d - st + 1);
            assert(all_digits(m1) == before) by {
                if before {
                    assert forall|j: int| 0 <= j < m1.len() implies is_digit(#[trigger] m1[j]) by {
                        assert(m1[j] == c@[j + st]);
                    }
                } else {
                    let j = choose|j: int| st <= j < d && !is_digit(#[trigger] c@[j]);
                    assert(m1[j - st] == c@[j]);
                }
            }
            assert(all_digits(m2) == after) by {
                if after {
                    assert forall|j: int| 0 <= j < m2.len() implies is_digit(#[trigger] m2[j]) by {
                        assert(m2[j] == c@[j + d + 1]);
                    }
                } else {
                    let j = choose|j: int| d + 1 <= j < p && !is_digit(#[trigger] c@[j]);
                    assert(m2[j - d - 1] == c@[j]);
                }
            }
        }
        before && after && (d > st || p > d + 1)
    } else {
        let all = digits_between(c, st, p);
        proof {
            assert(all_digits(m) == all) by {
                if all {
                    assert forall|j: int| 0 <= j < m.len() implies is_digit(#[trigger] m[j]) by {
                        assert(m[j] == c@[j + st]);
                    }
                } else {
                    let j = choose|j: int| st <= j < p && !is_digit(#[trigger] c@[j]);
                    assert(m[j - st] == c@[j]);
                }
            }
        }
        p > st && all
    }
}

/// Whether what follows the exponent marker at `p` in `c` is an exponent.
fn exponent_after(c: &Vec<char>, p: usize) -> (r: bool)
    requires
        p < c@.len(),
    ensures
        r == exponent_ok(c@.skip(p + 1)),
{
    let n = c.len();
    let ghost x = c@.skip(p + 1);
    let mut q = p + 1;
    if q < n && (c[q] == '+' || c[q] == '-') {
        q = q + 1;
    }
    let ghost y = unsigned_part(x);
    assert(y =~= c@.skip(q as int));
    if q >= n {
        return false;
    }
    let digits = digits_between(c, q, n);
    proof {
        assert(all_digits(y) == digits) by {
            if digits {
                assert forall|j: int| 0 <= j < y.len() implies is_digit(#[trigger] y[j]) by {
                    assert(y[j] == c@[j + q]);
                }
            } else {
                let j = choose|j: int| q <= j < n && !is_digit(#[trigger] c@[j]);
                assert(y[j - q] == c@[j]);
            }
        }
    }
    digits
}

/// Whether `t` is a decimal floating-point literal (see [`is_float_literal`]).
pub fn float_literal_ok(t: &str) -> (r: bool)
    ensures
        r == is_float_literal(t@),
{
    let c = chars_of(t);
    let n = c.len();
    let st: usize = if n > 0 && (c[0] == '+' || c[0] == '-') {
        1
    } else {
        0
    };
    let ghost tv = t@;
    let ghost rr = unsigned_part(tv);
    assert(rr =~= tv.skip(st as int));
    let mut p = st;
    while p < n && c[p] != 'e' && c[p] != 'E'
        invariant
            st <= p <= n,
            n == c@.len(),
            c@ == tv,
            forall|j: int| st <= j < p ==> c@[j] != 'e' && c@[j] != 'E',
        decreases n - p,
    {
        p = p + 1;
    }
    proof {
        assert forall|j: int| 0 <= j < p - st implies rr[j] != 'e' && rr[j] != 'E' by {
            assert(rr[j] == tv[j + st]);
        }
        if p < n {
            assert(rr[p - st] == tv[p as int]);
        }
        lemma_exp_index_is(rr, p - st);
    }
    let ghost m = rr.take(p - st);
    assert(m =~= tv.subrange(st as int, p as int));
    let mantissa = mantissa_between(&c, st, p);
    assert(mantissa == mantissa_ok(m));
    if !mantissa {
        return false;
    }
    if p == n {
        assert(p - st == rr.len());
        return true;
    }
    assert(rr.skip(p - st + 1) =~= tv.skip(p + 1));
    exponent_after(&c, p)
}

/// The JSON reader: the text, and its characters for indexing.
struct Parser<'a> {
    src: &'a str,
    chars: Vec<char>,
}

impl<'a> Parser<'a> {
    spec fn wf(&self) -> bool {
        self.chars@ == self.src@
    }

    spec fn text(&self) -> Seq<char> {
        self.chars@
    }

    fn new(src: &'a str) -> (p: Self)
        ensures
            p.wf(),
            p.text() == src@,
    {
        Parser { src, chars: chars_of(src) }
    }

    fn skip_ws(&self, pos: usize) -> (r: usize)
        requires
            pos <= self.text().len(),
        ensures
            r == skip_ws_at(self.text(), pos as int),
            pos <= r <= self.text().len(),
    {
        proof {
            lemma_skip_ws(self.text(), pos as int);
        }
        let mut i = pos;
        while i < self.chars.len() && is_whitespace(self.chars[i])
            invariant
                pos <= i <= self.text().len(),
                skip_ws_at(self.text(), i as int) == skip_ws_at(self.text(), pos as int),
            decreases self.text().len() - i,
        {
            i = i + 1;
        }
        i
    }

    fn peek_char(&self, pos: usize) -> (r: Option<char>)
        ensures
            r == if pos < self.text().len() {
                Some(self.text()[pos as int])
            } else {
                None::<char>
            },
    {
        if pos < self.chars.len() {
            Some(self.chars[pos])
        } else {
            None
        }
    }

    /// The message for finding something other than `expected` at `pos`.
    fn expected_message(&self, pos: usize, expected: char) -> (m: String)
        requires
            self.wf(),
        ensures
            m@ == "expected "@ + debug_char_text(expected) + ", got "@ + debug_indexed_text(
                byte_at(self.text(), pos as int),
            ),
    {
        let mut m = "expected ".to_owned();
        m.append(debug_char(expected).as_str());
        m.append(", got ");
        m.append(debug_indexed(indexed_char(self.src, pos)).as_str());
        m
    }

    fn expect(&self, pos: usize, expected: char) -> (r: Result<usize, String>)
        requires
            self.wf(),
        ensures
            match expect_at(self.text(), pos as int, expected) {
                Ok(e) => r matches Ok(x) && x == e,
                Err(m) => r matches Err(x) && x@ == m,
            },
    {
        if pos < self.chars.len() && self.chars[pos] == expected {
            Ok(pos + 1)
        } else {
            Err(self.expected_message(pos, expected))
        }
    }

    fn expect_literal(&self, pos: usize, literal: &str) -> (r: Result<usize, String>)
        requires
            self.wf(),
            pos <= self.text().len(),
        ensures
            match literal_at(self.text(), pos as int, literal@) {
                Ok(e) => r matches Ok(x) && x == e,
                Err(m) => r matches Err(x) && x@ == m,
            },
    {
        let lit = chars_of(literal);
        let mut k = pos;
        let mut i: usize = 0;
        assert(lit@.skip(0) =~= lit@);
        while i < lit.len()
            invariant
                self.wf(),
                lit@ == literal@,
                i <= lit@.len(),
                k <= self.text().len(),
                literal_at(self.text(), pos as int, lit@) == literal_at(
                    self.text(),
                    k as int,
                    lit@.skip(i as int),
                ),
            decreases lit@.len() - i,
        {
            assert(lit@.skip(i as int)[0] == lit@[i as int]);
            assert(lit@.skip(i as int).drop_first() =~= lit@.skip(i + 1));
            assert(literal_at(self.text(), k as int, lit@.skip(i as int)) == match expect_at(
                self.text(),
                k as int,
                lit@[i as int],
            ) {
                Err(m) => Err(m),
                Ok(_) => literal_at(self.text(), k + 1, lit@.skip(i + 1)),
            });
            k = self.expect(k, lit[i])?;
            i = i + 1;
        }
        assert(lit@.skip(i as int) =~= Seq::<char>::empty());
        Ok(k)
    }

    fn parse_hex4(&self, pos: usize) -> (r: Result<(u32, usize), String>)
        requires
            self.wf(),
            pos <= self.text().len(),
        ensures
            match hex_from(self.text(), pos as int, 4, 0) {
                Ok(code) => r matches Ok((c, e)) && c == code && e == pos + 4,
                Err(m) => r matches Err(x) && x@ == m,
            },
    {
        let mut code: u32 = 0;
        let mut i: usize = 0;
        while i < 4
            invariant
                self.wf(),
                i <= 4,
                pos <= self.text().len(),
                pos + i <= self.chars.len(),
                code < pow16(i as nat),
                hex_from(self.text(), pos as int, 4, 0) == hex_from(
                    self.text(),
                    pos + i,
                    (4 - i) as nat,
                    code as nat,
                ),
            decreases 4 - i,
        {
            if pos + i >= self.chars.len() {
                return Err("unterminated unicode escape".to_owned());
            }
            let c = self.chars[pos + i];
            let u = c as u32;
            proof {
                lemma_pow16_small();
                assert(i == 0 || i == 1 || i == 2 || i == 3);
            }
            let digit: u32 = if 48 <= u && u <= 57 {
                u - 48
            } else if 97 <= u && u <= 102 {
                u - 87
            } else if 65 <= u && u <= 70 {
                u - 55
            } else {
                return Err("invalid hex digit in unicode escape".to_owned());
            };
            assert(pow16((i + 1) as nat) == pow16(i as nat) * 16);
            assert(code * 16 + digit < pow16((i + 1) as nat)) by (nonlinear_arith)
                requires
                    code < pow16(i as nat),
                    digit < 16,
                    pow16((i + 1) as nat) == pow16(i as nat) * 16,
            ;
            code = code * 16 + digit;
            i = i + 1;
        }
        Ok((code, pos + 4))
    }

    fn parse_string(&self, pos: usize) -> (r: Result<(String, usize), String>)
        requires
            self.wf(),
            pos <= self.text().len(),
        ensures
            match string_at(self.text(), pos as int) {
                Ok((t, e)) => r matches Ok((x, f)) && x@ == t && f == e,
                Err(m) => r matches Err(x) && x@ == m,
            },
    {
        let start = self.expect(pos, '"')?;
        let ghost s = self.text();
        let mut out = String::new();
        let mut k = start;
        assert(out@ + Seq::<char>::empty() =~= out@);
        loop
            invariant
                self.wf(),
                s == self.text(),
                start == pos + 1,
                start <= k <= s.len(),
                string_at(s, pos as int) == match string_body(s, k as int) {
                    Ok((t, e)) => Ok::<(Seq<char>, int), Seq<char>>((out@ + t, e)),
                    Err(m) => Err(m),
                },
            decreases s.len() - k,
        {
            if k >= self.chars.len() {
                return Err("unterminated string".to_owned());
            }
            let c = self.chars[k];
            if c == '"' {
                assert(out@ + Seq::<char>::empty() =~= out@);
                return Ok((out, k + 1));
            }
            let ghost before = out@;
            if c == '\\' {
                if k + 1 >= self.chars.len() {
                    let mut m = "invalid escape: ".to_owned();
                    m.append(debug_indexed(None).as_str());
                    return Err(m);
                }
                let e = self.chars[k + 1];
                let ch: char = if e == 'u' {
                    let (code, _) = self.parse_hex4(k + 2)?;
                    proof {
                        lemma_hex_from(s, k + 2, 4, 0);
                    }
                    match char_from_u32(code) {
                        Some(x) => {
                            proof {
                                vstd::utf8::char_u32_cast(x, code);
                            }
                            x
                        },
                        None => '\u{FFFD}',
                    }
                } else if e == '"' {
                    '"'
                } else if e == '\\' {
                    '\\'
                } else if e == '/' {
                    '/'
                } else if e == 'b' {
                    '\u{8}'
                } else if e == 'f' {
                    '\u{c}'
                } else if e == 'n' {
                    '\n'
                } else if e == 'r' {
                    '\r'
                } else if e == 't' {
                    '\t'
                } else {
                    let mut m = "invalid escape: ".to_owned();
                    m.append(debug_indexed(indexed_char(self.src, k + 1)).as_str());
                    return Err(m);
                };
                push_char(&mut out, ch);
                k = if e == 'u' {
                    k + 6
                } else {
                    k + 2
                };
            } else {
                push_char(&mut out, c);
                k = k + 1;
            }
            proof {
                match string_body(s, k as int) {
                    Ok((t, e)) => {
                        assert(out@ + t =~= before + (seq![out@.last()] + t));
                    },
                    Err(_) => {},
                }
            }
        }
    }

    fn parse_number(&self, pos: usize) -> (r: Result<(Json, usize), String>)
        requires
            self.wf(),
            pos < self.text().len(),
            is_number_char(self.text()[pos as int]),
        ensures
            match number_at(self.text(), pos as int) {
                Ok((v, e)) => r matches Ok((j, f)) && j@ == v && f == e && pos < f <= self.text().len(),
                Err(m) => r matches Err(x) && x@ == m,
            },
    {
        proof {
            lemma_number_end(self.text(), pos as int);
        }
        let mut e = pos;
        while e < self.chars.len() && number_char(self.chars[e])
            invariant
                self.wf(),
                pos <= e <= self.text().len(),
                number_end(self.text(), e as int) == number_end(self.text(), pos as int),
            decreases self.text().len() - e,
        {
            e = e + 1;
        }
        let token = self.src.substring_char(pos, e);
        if float_literal_ok(token) {
            Ok((Json::Number(token.to_owned()), e))
        } else {
            if token.unicode_len() == 0 {
                Err("cannot parse float from empty string".to_owned())
            } else {
                Err("invalid float literal".to_owned())
            }
        }
    }
}

fn number_char(c: char) -> (r: bool)
    ensures
        r == is_number_char(c),
{
    let u = c as u32;
    (48 <= u && u <= 57) || c == '-' || c == '+' || c == '.' || c == 'e' || c == 'E'
}

proof fn lemma_pow16_small()
    ensures
        pow16(0) == 1,
        pow16(1) == 16,
        pow16(2) == 256,
        pow16(3) == 4096,
        pow16(4) == 65536,
{
    assert(pow16(0) == 1);
    assert(pow16(1) == 16);
    assert(pow16(2) == 256);
    assert(pow16(3) == 4096);
    assert(pow16(4) == 65536);
}

/// 16 to the power `n`.
pub open spec fn pow16(n: nat) -> nat
    decreases n,
{
    if n == 0 {
        1
    } else {
        16 * pow16((n - 1) as nat)
    }
}

pub proof fn lemma_literal_at(s: Seq<char>, k: int, lit: Seq<char>)
    ensures
        literal_at(s, k, lit) matches Ok(e) ==> e == k + lit.len() && (lit.len() > 0 ==> e
            <= s.len()),
    decreases lit.len(),
{
    if lit.len() > 0 {
        lemma_literal_at(s, k + 1, lit.drop_first());
    }
}

proof fn lemma_entries_push(v: Seq<(String, Json)>, x: (String, Json))
    ensures
        entries_view(v.push(x)) == entries_view(v).push((x.0@, x.1@)),
{
    assert(v.push(x).subrange(0, v.len() as int) =~= v);
}

proof fn lemma_items_push(v: Seq<Json>, x: Json)
    ensures
        items_view(v.push(x)) == items_view(v).push(x@),
{
    assert(v.push(x).subrange(0, v.len() as int) =~= v);
}

impl<'a> Parser<'a> {
    /// The message for finding something other than a separator or `close`.
    fn separator_message(&self, pos: usize, close: char) -> (m: String)
        requires
            self.wf(),
            close == '}' || close == ']',
        ensures
            close == '}' ==> m@ == "expected ',' or '}', got "@ + debug_indexed_text(
                byte_at(self.text(), pos as int),
            ),
            close == ']' ==> m@ == "expected ',' or ']', got "@ + debug_indexed_text(
                byte_at(self.text(), pos as int),
            ),
    {
        let mut m = if close == '}' {
            "expected ',' or '}', got ".to_owned()
        } else {
            "expected ',' or ']', got ".to_owned()
        };
        m.append(debug_indexed(indexed_char(self.src, pos)).as_str());
        m
    }

    fn parse_value(&self, pos: usize) -> (r: Result<(Json, usize), String>)
        requires
            self.wf(),
            pos <= self.text().len(),
        ensures
            match value_at(self.text(), pos as int) {
                Ok((v, e)) => r matches Ok((j, f)) && j@ == v && f == e && pos < f <= self.text().len(),
                Err(m) => r matches Err(x) && x@ == m,
            },
        decreases self.text().len() - pos, 2int,
    {
        let j = self.skip_ws(pos);
        let ghost s = self.text();
        match self.peek_char(j) {
            Some(c) => {
                if c == '{' {
                    self.parse_object(j)
                } else if c == '[' {
                    self.parse_array(j)
                } else if c == '"' {
                    proof {
                        lemma_string_at(s, j as int);
                    }
                    let (t, e) = self.parse_string(j)?;
                    Ok((Json::Str(t), e))
                } else if c == 't' {
                    proof {
                        lemma_literal_at(s, j as int, "true"@);
                        reveal_strlit("true");
                    }
                    let e = self.expect_literal(j, "true")?;
                    Ok((Json::Bool, e))
                } else if c == 'f' {
                    proof {
                        lemma_literal_at(s, j as int, "false"@);
                        reveal_strlit("false");
                    }
                    let e = self.expect_literal(j, "false")?;
                    Ok((Json::Bool, e))
                } else if c == 'n' {
                    proof {
                        lemma_literal_at(s, j as int, "null"@);
                        reveal_strlit("null");
                    }
                    let e = self.expect_literal(j, "null")?;
                    Ok((Json::Null, e))
                } else if c == '-' || (48 <= c as u32 && c as u32 <= 57) {
                    self.parse_number(j)
                } else {
                    let mut m = "unexpected token: ".to_owned();
                    m.append(debug_opt_char(Some(c)).as_str());
                    Err(m)
                }
            },
            None => {
                let mut m = "unexpected token: ".to_owned();
                m.append(debug_opt_char(None).as_str());
                Err(m)
            },
        }
    }

    fn parse_object(&self, j: usize) -> (r: Result<(Json, usize), String>)
        requires
            self.wf(),
            j < self.text().len(),
            self.text()[j as int] == '{',
        ensures
            match object_at(self.text(), j as int) {
                Ok((v, e)) => r matches Ok((x, f)) && x@ == v && f == e && j < f <= self.text().len(),
                Err(m) => r matches Err(x) && x@ == m,
            },
        decreases self.text().len() - j, 1int,
    {
        let ghost s = self.text();
        let n = self.chars.len();
        let k = self.skip_ws(j + 1);
        if k < self.chars.len() && self.chars[k] == '}' {
            let empty: Vec<(String, Json)> = Vec::new();
            proof {
                assert(entries_view(empty@) =~= Seq::empty());
            }
            return Ok((Json::Object(empty), k + 1));
        }
        let mut entries: Vec<(String, Json)> = Vec::new();
        let mut cur = k;
        assert(entries_view(entries@) + Seq::<(Seq<char>, JsonValue)>::empty() =~= Seq::empty());
        loop
            invariant
                self.wf(),
                s == self.text(),
                j < k <= cur <= s.len(),
                object_at(s, j as int) == match members_at(s, k as int) {
                    Ok((m, e)) => Ok::<(JsonValue, int), Seq<char>>((JsonValue::Object(m), e)),
                    Err(x) => Err(x),
                },
                members_at(s, k as int) == match members_at(s, cur as int) {
                    Ok((rest, f)) => Ok::<(Seq<(Seq<char>, JsonValue)>, int), Seq<char>>(
                        (entries_view(entries@) + rest, f),
                    ),
                    Err(m) => Err(m),
                },
            decreases s.len() - cur,
        {
            let a = self.skip_ws(cur);
            proof {
                lemma_string_at(s, a as int);
            }
            let (key, b) = self.parse_string(a)?;
            let c = self.skip_ws(b);
            if !(c < self.chars.len() && self.chars[c] == ':') {
                return Err(self.expected_message(c, ':'));
            }
            let (v, d) = self.parse_value(c + 1)?;
            let ghost before = entries_view(entries@);
            let ghost entry = (key@, v@);
            let ghost pair = (key, v);
            let ghost prior = entries@;
            entries.push((key, v));
            proof {
                lemma_entries_push(prior, pair);
            }
            let e = self.skip_ws(d);
            if e < self.chars.len() && self.chars[e] == ',' {
                proof {
                    match members_at(s, e + 1) {
                        Ok((rest, f)) => {
                            assert(before + (seq![entry] + rest) =~= entries_view(entries@) + rest);
                        },
                        Err(_) => {},
                    }
                }
                cur = e + 1;
            } else if e < self.chars.len() && self.chars[e] == '}' {
                proof {
                    assert(before + seq![entry] =~= entries_view(entries@));
                }
                return Ok((Json::Object(entries), e + 1));
            } else {
                return Err(self.separator_message(e, '}'));
            }
        }
    }

    fn parse_array(&self, j: usize) -> (r: Result<(Json, usize), String>)
        requires
            self.wf(),
            j < self.text().len(),
            self.text()[j as int] == '[',
        ensures
            match array_at(self.text(), j as int) {
                Ok((v, e)) => r matches Ok((x, f)) && x@ == v && f == e && j < f <= self.text().len(),
                Err(m) => r matches Err(x) && x@ == m,
            },
        decreases self.text().len() - j, 1int,
    {
        let ghost s = self.text();
        let n = self.chars.len();
        let k = self.skip_ws(j + 1);
        if k < self.chars.len() && self.chars[k] == ']' {
            let empty: Vec<Json> = Vec::new();
            proof {
                assert(items_view(empty@) =~= Seq::empty());
            }
            return Ok((Json::Array(empty), k + 1));
        }
        let mut items: Vec<Json> = Vec::new();
        let mut cur = k;
        assert(items_view(items@) + Seq::<JsonValue>::empty() =~= Seq::empty());
        loop
            invariant
                self.wf(),
                s == self.text(),
                j < k <= cur <= s.len(),
                array_at(s, j as int) == match elements_at(s, k as int) {
                    Ok((m, e)) => Ok::<(JsonValue, int), Seq<char>>((JsonValue::Array(m), e)),
                    Err(x) => Err(x),
                },
                elements_at(s, k as int) == match elements_at(s, cur as int) {
                    Ok((rest, f)) => Ok::<(Seq<JsonValue>, int), Seq<char>>(
                        (items_view(items@) + rest, f),
                    ),
                    Err(m) => Err(m),
                },
            decreases s.len() - cur,
        {
            let (v, d) = self.parse_value(cur)?;
            let ghost before = items_view(items@);
            let ghost item = v@;
            let ghost prior = items@;
            let ghost pushed = v;
            items.push(v);
            proof {
                lemma_items_push(prior, pushed);
            }
            let e = self.skip_ws(d);
            if e < self.chars.len() && self.chars[e] == ',' {
                proof {
                    match elements_at(s, e + 1) {
                        Ok((rest, f)) => {
                            assert(before + (seq![item] + rest) =~= items_view(items@) + rest);
                        },
                        Err(_) => {},
                    }
                }
                cur = e + 1;
            } else if e < self.chars.len() && self.chars[e] == ']' {
                proof {
                    assert(before + seq![item] =~= items_view(items@));
                }
                return Ok((Json::Array(items), e + 1));
            } else {
                return Err(self.separator_message(e, ']'));
            }
        }
    }
}

/// Reads the JSON value at the start of `src`; what follows it is ignored.
pub fn parse_json_value(src: &str) -> (r: Result<Json, String>)
    ensures
        match value_at(src@, 0) {
            Ok((v, _)) => r matches Ok(j) && j@ == v,
            Err(m) => r matches Err(x) && x@ == m,
        },
{
    let p = Parser::new(src);
    let (v, _) = p.parse_value(0)?;
    Ok(v)
}

} // verus!
