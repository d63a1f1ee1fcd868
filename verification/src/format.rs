//! The store's on-disk format, stated mathematically: a JSON array of
//! records, each an object with the fields `id`, `content` and `state`.
//!
//! `enc_todos` is the canonical encoding that saving produces; the `sp_*`
//! functions define exactly which character sequences loading accepts and
//! what they denote. Both sides are pure definitions over `Seq<char>`;
//! the executable encoder and parser are proved against them.
use vstd::prelude::*;

use crate::model::{TodoState, TodoView};

verus! {

// ---------------------------------------------------------------------------
// Character classes and digits
// ---------------------------------------------------------------------------
/// The whitespace characters JSON allows between tokens.
pub open spec fn is_json_ws(c: char) -> bool {
    c == ' ' || c == '\t' || c == '\n' || c == '\r'
}

pub open spec fn is_digit(c: char) -> bool {
    '0' <= c && c <= '9'
}

/// Numeric value of a decimal digit character.
pub open spec fn digit_val(c: char) -> nat
    recommends
        is_digit(c),
{
    (c as u32 - '0' as u32) as nat
}

/// The decimal digit character for a value below ten.
pub open spec fn dec_digit(n: nat) -> char
    recommends
        n < 10,
{
    if n == 0 {
        '0'
    } else if n == 1 {
        '1'
    } else if n == 2 {
        '2'
    } else if n == 3 {
        '3'
    } else if n == 4 {
        '4'
    } else if n == 5 {
        '5'
    } else if n == 6 {
        '6'
    } else if n == 7 {
        '7'
    } else if n == 8 {
        '8'
    } else {
        '9'
    }
}

pub open spec fn is_hex_digit(c: char) -> bool {
    is_digit(c) || ('a' <= c && c <= 'f') || ('A' <= c && c <= 'F')
}

/// Numeric value of a hexadecimal digit character.
pub open spec fn hex_val(c: char) -> nat
    recommends
        is_hex_digit(c),
{
    if is_digit(c) {
        digit_val(c)
    } else if 'a' <= c && c <= 'f' {
        (c as u32 - 'a' as u32 + 10) as nat
    } else {
        (c as u32 - 'A' as u32 + 10) as nat
    }
}

/// The lowercase hexadecimal digit character for a value below sixteen.
pub open spec fn hex_digit(n: nat) -> char
    recommends
        n < 16,
{
    if n < 10 {
        dec_digit(n)
    } else if n == 10 {
        'a'
    } else if n == 11 {
        'b'
    } else if n == 12 {
        'c'
    } else if n == 13 {
        'd'
    } else if n == 14 {
        'e'
    } else {
        'f'
    }
}

// ---------------------------------------------------------------------------
// Canonical encoding
// ---------------------------------------------------------------------------
/// How one character appears inside a JSON string literal: itself, a
/// two-character short escape, or a `\u00XX` escape for the remaining
/// control characters.
pub open spec fn esc_char(c: char) -> Seq<char> {
    if c == '"' {
        seq!['\\', '"']
    } else if c == '\\' {
        seq!['\\', '\\']
    } else if c == '\u{8}' {
        seq!['\\', 'b']
    } else if c == '\u{c}' {
        seq!['\\', 'f']
    } else if c == '\n' {
        seq!['\\', 'n']
    } else if c == '\r' {
        seq!['\\', 'r']
    } else if c == '\t' {
        seq!['\\', 't']
    } else if (c as u32) < 0x20 {
        seq!['\\', 'u', '0', '0', hex_digit((c as u32 / 16) as nat), hex_digit(
            (c as u32 % 16) as nat,
        )]
    } else {
        seq![c]
    }
}

/// The characters between the quotes of a string literal.
pub open spec fn enc_string_body(s: Seq<char>) -> Seq<char>
    decreases s.len(),
{
    if s.len() == 0 {
        Seq::empty()
    } else {
        enc_string_body(s.drop_last()) + esc_char(s.last())
    }
}

/// A whole JSON string literal, quotes included.
pub open spec fn enc_string(s: Seq<char>) -> Seq<char> {
    seq!['"'] + enc_string_body(s) + seq!['"']
}

/// Decimal digits of a number, no sign and no leading zeros.
pub open spec fn enc_u64(n: nat) -> Seq<char>
    decreases n,
{
    if n < 10 {
        seq![dec_digit(n)]
    } else {
        enc_u64(n / 10) + seq![dec_digit(n % 10)]
    }
}

/// The tag a state is stored under.
pub open spec fn enc_state(st: TodoState) -> Seq<char> {
    match st {
        TodoState::Pending => seq!['P', 'e', 'n', 'd', 'i', 'n', 'g'],
        TodoState::Completed => seq!['C', 'o', 'm', 'p', 'l', 'e', 't', 'e', 'd'],
    }
}

/// One record as a JSON object with its three fields in store order.
pub open spec fn enc_todo(t: TodoView) -> Seq<char> {
    seq!['{', '"', 'i', 'd', '"', ':'] + enc_u64(t.id as nat) + seq![',', '"', 'c', 'o', 'n', 't',
        'e', 'n', 't', '"', ':'] + enc_string(t.content) + seq![',', '"', 's', 't', 'a', 't', 'e',
        '"', ':', '"'] + enc_state(t.state) + seq!['"', '}']
}

/// The comma-separated objects between the array brackets.
pub open spec fn enc_list_body(ts: Seq<TodoView>) -> Seq<char>
    decreases ts.len(),
{
    if ts.len() == 0 {
        Seq::empty()
    } else if ts.len() == 1 {
        enc_todo(ts[0])
    } else {
        enc_list_body(ts.drop_last()) + seq![','] + enc_todo(ts.last())
    }
}

/// The canonical store content for an ordered sequence of records.
pub open spec fn enc_todos(ts: Seq<TodoView>) -> Seq<char> {
    seq!['['] + enc_list_body(ts) + seq![']']
}

// ---------------------------------------------------------------------------
// The accepted grammar: a recursive-descent parser over `Seq<char>`
// ---------------------------------------------------------------------------
/// First position at or after `i` holding no whitespace.
pub open spec fn skip_ws(s: Seq<char>, i: int) -> int
    decreases s.len() - i,
{
    if 0 <= i && i < s.len() && is_json_ws(s[i]) {
        skip_ws(s, i + 1)
    } else {
        i
    }
}

/// Skip whitespace, then match the single character `c`.
pub open spec fn sp_symbol(s: Seq<char>, i: int, c: char) -> Option<int> {
    let j = skip_ws(s, i);
    if j < s.len() && s[j] == c {
        Some(j + 1)
    } else {
        None
    }
}

/// End of the run of decimal digits starting at `i`.
pub open spec fn digit_run_end(s: Seq<char>, i: int) -> int
    decreases s.len() - i,
{
    if 0 <= i && i < s.len() && is_digit(s[i]) {
        digit_run_end(s, i + 1)
    } else {
        i
    }
}

/// Value of the digits in `s[i..j]`, most significant first.
pub open spec fn digits_val(s: Seq<char>, i: int, j: int) -> nat
    decreases j - i,
{
    if i < j && j <= s.len() && 0 <= i {
        digits_val(s, i, j - 1) * 10 + digit_val(s[j - 1])
    } else {
        0
    }
}

/// Parse an unsigned JSON number that fits in a machine word:
/// `0`, or a nonzero digit followed by further digits.
pub open spec fn sp_number(s: Seq<char>, i: int) -> Option<(u64, int)> {
    if 0 <= i && i < s.len() && s[i] == '0' {
        Some((0u64, i + 1))
    } else if 0 <= i && i < s.len() && is_digit(s[i]) {
        let j = digit_run_end(s, i);
        let v = digits_val(s, i, j);
        if v <= u64::MAX {
            Some((v as u64, j))
        } else {
            None
        }
    } else {
        None
    }
}

/// Parse the remainder of a string literal, the opening quote already
/// consumed and `acc` holding the characters read so far.
pub open spec fn sp_str_body(s: Seq<char>, i: int, acc: Seq<char>) -> Option<(Seq<char>, int)>
    decreases s.len() - i,
{
    if !(0 <= i && i < s.len()) {
        None
    } else if s[i] == '"' {
        Some((acc, i + 1))
    } else if s[i] == '\\' {
        if i + 1 >= s.len() {
            None
        } else {
            let e = s[i + 1];
            if e == '"' || e == '\\' || e == '/' {
                sp_str_body(s, i + 2, acc + seq![e])
            } else if e == 'b' {
                sp_str_body(s, i + 2, acc + seq!['\u{8}'])
            } else if e == 'f' {
                sp_str_body(s, i + 2, acc + seq!['\u{c}'])
            } else if e == 'n' {
                sp_str_body(s, i + 2, acc + seq!['\n'])
            } else if e == 'r' {
                sp_str_body(s, i + 2, acc + seq!['\r'])
            } else if e == 't' {
                sp_str_body(s, i + 2, acc + seq!['\t'])
            } else if e == 'u' {
                if i + 6 <= s.len() && is_hex_digit(s[i + 2]) && is_hex_digit(s[i + 3])
                    && is_hex_digit(s[i + 4]) && is_hex_digit(s[i + 5]) {
                    let h = hex_val(s[i + 2]) * 0x1000 + hex_val(s[i + 3]) * 0x100 + hex_val(
                        s[i + 4],
                    ) * 0x10 + hex_val(s[i + 5]);
                    if h < 0xD800 || h >= 0xE000 {
                        sp_str_body(s, i + 6, acc + seq![h as u32 as char])
                    } else if h < 0xDC00 {
                        // a high surrogate: a low surrogate must follow, and
                        // the pair denotes one supplementary character
                        if i + 12 <= s.len() && s[i + 6] == '\\' && s[i + 7] == 'u' && is_hex_digit(
                            s[i + 8],
                        ) && is_hex_digit(s[i + 9]) && is_hex_digit(s[i + 10]) && is_hex_digit(
                            s[i + 11],
                        ) {
                            let lo = hex_val(s[i + 8]) * 0x1000 + hex_val(s[i + 9]) * 0x100
                                + hex_val(s[i + 10]) * 0x10 + hex_val(s[i + 11]);
                            if 0xDC00 <= lo && lo < 0xE000 {
                                let cp = 0x10000 + (h - 0xD800) * 0x400 + (lo - 0xDC00);
                                sp_str_body(s, i + 12, acc + seq![cp as u32 as char])
                            } else {
                                None
                            }
                        } else {
                            None
                        }
                    } else {
                        // a lone low surrogate denotes nothing
                        None
                    }
                } else {
                    None
                }
            } else {
                None
            }
        }
    } else if (s[i] as u32) < 0x20 {
        None
    } else {
        sp_str_body(s, i + 1, acc + seq![s[i]])
    }
}

/// Parse a whole string literal at `i`.
pub open spec fn sp_string(s: Seq<char>, i: int) -> Option<(Seq<char>, int)> {
    if 0 <= i && i < s.len() && s[i] == '"' {
        sp_str_body(s, i + 1, Seq::empty())
    } else {
        None
    }
}

/// The state a stored tag denotes, if any.
pub open spec fn state_of_tag(tag: Seq<char>) -> Option<TodoState> {
    if tag == enc_state(TodoState::Pending) {
        Some(TodoState::Pending)
    } else if tag == enc_state(TodoState::Completed) {
        Some(TodoState::Completed)
    } else {
        None
    }
}

/// Parse one object member at `i` (no leading whitespace): a quoted key,
/// a colon, and the value the key calls for, folded into the record
/// fields gathered so far. A key seen twice, or one that is not a field
/// of the record schema, denotes nothing.
pub open spec fn sp_member(
    s: Seq<char>,
    i: int,
    id: Option<u64>,
    content: Option<Seq<char>>,
    state: Option<TodoState>,
) -> Option<(Option<u64>, Option<Seq<char>>, Option<TodoState>, int)> {
    match sp_string(s, i) {
        None => None,
        Some((key, j)) => match sp_symbol(s, j, ':') {
            None => None,
            Some(j) => {
                let jv = skip_ws(s, j);
                if key == seq!['i', 'd'] {
                    if id is Some {
                        None
                    } else {
                        match sp_number(s, jv) {
                            None => None,
                            Some((v, j)) => Some((Some(v), content, state, j)),
                        }
                    }
                } else if key == seq!['c', 'o', 'n', 't', 'e', 'n', 't'] {
                    if content is Some {
                        None
                    } else {
                        match sp_string(s, jv) {
                            None => None,
                            Some((c, j)) => Some((id, Some(c), state, j)),
                        }
                    }
                } else if key == seq!['s', 't', 'a', 't', 'e'] {
                    if state is Some {
                        None
                    } else {
                        match sp_string(s, jv) {
                            None => None,
                            Some((tag, j)) => match state_of_tag(tag) {
                                None => None,
                                Some(st) => Some((id, content, Some(st), j)),
                            },
                        }
                    }
                } else {
                    None
                }
            },
        },
    }
}

/// Parse the members of a record object from the first one on, in any
/// order, through the closing brace. The object is a record only when
/// each of the three fields appears exactly once.
pub open spec fn sp_members(
    s: Seq<char>,
    i: int,
    id: Option<u64>,
    content: Option<Seq<char>>,
    state: Option<TodoState>,
) -> Option<(TodoView, int)>
    decreases s.len() - i,
{
    match sp_member(s, i, id, content, state) {
        None => None,
        Some((id, content, state, j)) => {
            let k = skip_ws(s, j);
            if !(i < j && j <= k && k <= s.len()) {
                None
            } else if k < s.len() && s[k] == ',' {
                let m = skip_ws(s, k + 1);
                if k + 1 <= m && m <= s.len() {
                    sp_members(s, m, id, content, state)
                } else {
                    None
                }
            } else if k < s.len() && s[k] == '}' {
                match (id, content, state) {
                    (Some(id), Some(content), Some(state)) => Some(
                        (TodoView { id, content, state }, k + 1),
                    ),
                    _ => None,
                }
            } else {
                None
            }
        },
    }
}

/// Parse one record object at `i` (no leading whitespace): the members
/// `id`, `content` and `state`, each exactly once, in any order.
pub open spec fn sp_todo(s: Seq<char>, i: int) -> Option<(TodoView, int)> {
    if !(0 <= i && i < s.len() && s[i] == '{') {
        None
    } else {
        sp_members(s, skip_ws(s, i + 1), None, None, None)
    }
}

/// Parse the remaining comma-separated record objects of a non-empty
/// array, `acc` holding the records read so far and `i` standing on the
/// next object.
pub open spec fn sp_items(s: Seq<char>, i: int, acc: Seq<TodoView>) -> Option<
    (Seq<TodoView>, int),
>
    decreases s.len() - i,
{
    match sp_todo(s, i) {
        None => None,
        Some((t, j)) => {
            let k = skip_ws(s, j);
            if !(i < j && j <= k && k <= s.len()) {
                None
            } else if k < s.len() && s[k] == ',' {
                let m = skip_ws(s, k + 1);
                if k + 1 <= m && m <= s.len() {
                    sp_items(s, m, acc.push(t))
                } else {
                    None
                }
            } else if k < s.len() && s[k] == ']' {
                Some((acc.push(t), k + 1))
            } else {
                None
            }
        },
    }
}

/// Parse a whole array of records at `i` (no leading whitespace).
pub open spec fn sp_todos(s: Seq<char>, i: int) -> Option<(Seq<TodoView>, int)> {
    if !(0 <= i && i < s.len() && s[i] == '[') {
        None
    } else {
        let j = skip_ws(s, i + 1);
        if j < s.len() && s[j] == ']' {
            Some((Seq::empty(), j + 1))
        } else {
            sp_items(s, j, Seq::empty())
        }
    }
}

/// What a whole store file denotes: the records of its single array,
/// provided nothing but whitespace surrounds it. `None` is a parse failure.
///
/// Each record object must carry the members `id`, `content` and `state`,
/// each exactly once and in any order. An object carrying any further
/// member is rejected — a deliberate strictness: the store is this tool's
/// own file, an unknown member in it can only be a mistake, and silently
/// dropping one on the next whole-file rewrite would lose data.
pub open spec fn decode_spec(s: Seq<char>) -> Option<Seq<TodoView>> {
    match sp_todos(s, skip_ws(s, 0)) {
        None => None,
        Some((ts, j)) => if skip_ws(s, j) == s.len() {
            Some(ts)
        } else {
            None
        },
    }
}

} // verus!
