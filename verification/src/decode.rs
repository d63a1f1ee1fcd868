//! The executable parser: reads store content back into records, proved to
//! return exactly what the grammar in [`crate::format`] denotes.
use vstd::prelude::*;

use crate::format::{
    decode_spec, digit_run_end, digit_val, digits_val, hex_val, is_digit, is_hex_digit,
    is_json_ws, skip_ws, sp_items, sp_member, sp_members, sp_number, sp_str_body, sp_string, sp_symbol, sp_todo,
    sp_todos, state_of_tag, enc_state,
};
use crate::model::{Todo, TodoState};
use crate::text::{char_from_u32, chars_to_string, str_to_chars};

verus! {

/// Ten to the `k`th power.
pub open spec fn pow10(k: nat) -> nat
    decreases k,
{
    if k == 0 {
        1
    } else {
        10 * pow10((k - 1) as nat)
    }
}

/// A digit run starting with a nonzero digit is at least ten to the power
/// of one less than its length.
proof fn lemma_digits_val_lower(s: Seq<char>, i: int, j: int)
    requires
        0 <= i < j <= s.len(),
        forall|k: int| i <= k < j ==> is_digit(#[trigger] s[k]),
        digit_val(s[i]) >= 1,
    ensures
        digits_val(s, i, j) >= pow10((j - i - 1) as nat),
    decreases j - i,
{
    if j == i + 1 {
        assert(digits_val(s, i, j) == digits_val(s, i, i) * 10 + digit_val(s[i]));
    } else {
        lemma_digits_val_lower(s, i, j - 1);
        assert(digits_val(s, i, j) == digits_val(s, i, j - 1) * 10 + digit_val(s[j - 1]));
    }
}

/// Whether `c` is whitespace the grammar skips.
fn is_ws_char(c: char) -> (r: bool)
    ensures
        r == is_json_ws(c),
{
    c == ' ' || c == '\t' || c == '\n' || c == '\r'
}

pub(crate) fn is_digit_char(c: char) -> (r: bool)
    ensures
        r == is_digit(c),
{
    '0' <= c && c <= '9'
}

pub(crate) fn digit_value(c: char) -> (r: u64)
    requires
        is_digit(c),
    ensures
        r == digit_val(c),
        r < 10,
{
    (c as u32 - '0' as u32) as u64
}

fn is_hex_char(c: char) -> (r: bool)
    ensures
        r == is_hex_digit(c),
{
    ('0' <= c && c <= '9') || ('a' <= c && c <= 'f') || ('A' <= c && c <= 'F')
}

fn hex_value(c: char) -> (r: u32)
    requires
        is_hex_digit(c),
    ensures
        r == hex_val(c),
        r < 16,
{
    if '0' <= c && c <= '9' {
        c as u32 - '0' as u32
    } else if 'a' <= c && c <= 'f' {
        c as u32 - 'a' as u32 + 10
    } else {
        c as u32 - 'A' as u32 + 10
    }
}

/// First position at or after `i` holding no whitespace.
fn skip_ws_run(s: &Vec<char>, i: usize) -> (j: usize)
    requires
        i <= s@.len(),
    ensures
        j == skip_ws(s@, i as int),
        i <= j <= s@.len(),
{
    let mut j = i;
    while j < s.len() && is_ws_char(s[j])
        invariant
            i <= j <= s@.len(),
            skip_ws(s@, i as int) == skip_ws(s@, j as int),
        decreases s@.len() - j,
    {
        j = j + 1;
    }
    j
}

/// Skip whitespace, then match the single character `c`.
fn parse_symbol(s: &Vec<char>, i: usize, c: char) -> (r: Option<usize>)
    requires
        i <= s@.len(),
    ensures
        r is None ==> sp_symbol(s@, i as int, c) is None,
        r matches Some(j) ==> sp_symbol(s@, i as int, c) == Some(j as int) && i < j <= s@.len(),
{
    let j = skip_ws_run(s, i);
    if j < s.len() && s[j] == c {
        Some(j + 1)
    } else {
        None
    }
}

/// Parse an unsigned number at `i`.
fn parse_number(s: &Vec<char>, i: usize) -> (r: Option<(u64, usize)>)
    requires
        i <= s@.len(),
    ensures
        r is None ==> sp_number(s@, i as int) is None,
        r matches Some(p) ==> sp_number(s@, i as int) == Some((p.0, p.1 as int)) && i < p.1
            <= s@.len(),
{
    if i >= s.len() || !is_digit_char(s[i]) {
        return None;
    }
    if s[i] == '0' {
        return Some((0u64, i + 1));
    }
    let mut j = i;
    while j < s.len() && is_digit_char(s[j])
        invariant
            i <= j <= s@.len(),
            digit_run_end(s@, i as int) == digit_run_end(s@, j as int),
            forall|k: int| i <= k < j ==> is_digit(#[trigger] s@[k]),
        decreases s@.len() - j,
    {
        j = j + 1;
    }
    assert(digit_run_end(s@, i as int) == j);
    if j - i > 20 {
        proof {
            lemma_digits_val_lower(s@, i as int, j as int);
            assert(pow10(20) > u64::MAX) by {
                reveal_with_fuel(pow10, 21);
            }
            assert(pow10((j - i - 1) as nat) >= pow10(20)) by {
                lemma_pow10_increases(20, (j - i - 1) as nat);
            }
        }
        return None;
    }
    let mut acc: u128 = 0;
    let mut k = i;
    while k < j
        invariant
            i <= k <= j <= s@.len(),
            j - i <= 20,
            forall|m: int| i <= m < j ==> is_digit(#[trigger] s@[m]),
            acc == digits_val(s@, i as int, k as int),
            acc < pow10((k - i) as nat),
        decreases j - k,
    {
        proof {
            lemma_pow10_increases((k - i + 1) as nat, 20);
            assert(pow10(20) < 0x1_0000_0000_0000_0000_0000_0000_0000_0000) by {
                reveal_with_fuel(pow10, 21);
            }
        }
        acc = acc * 10 + digit_value(s[k]) as u128;
        k = k + 1;
    }
    if acc <= u64::MAX as u128 {
        Some((acc as u64, j))
    } else {
        None
    }
}

/// Larger exponents give at least as large powers of ten.
proof fn lemma_pow10_increases(a: nat, b: nat)
    requires
        a <= b,
    ensures
        pow10(a) <= pow10(b),
    decreases b,
{
    if a < b {
        lemma_pow10_increases(a, (b - 1) as nat);
        assert(pow10(b) == 10 * pow10((b - 1) as nat));
        assert(pow10((b - 1) as nat) >= 1) by {
            lemma_pow10_positive((b - 1) as nat);
        }
    }
}

/// Powers of ten are positive.
proof fn lemma_pow10_positive(a: nat)
    ensures
        pow10(a) >= 1,
    decreases a,
{
    if a > 0 {
        lemma_pow10_positive((a - 1) as nat);
    }
}

/// Parse a whole string literal at `i`.
fn parse_string(s: &Vec<char>, i: usize) -> (r: Option<(Vec<char>, usize)>)
    requires
        i <= s@.len(),
    ensures
        r is None ==> sp_string(s@, i as int) is None,
        r matches Some(p) ==> sp_string(s@, i as int) == Some((p.0@, p.1 as int)) && i < p.1
            <= s@.len(),
{
    if !(i < s.len() && s[i] == '"') {
        return None;
    }
    let mut pos = i + 1;
    let mut acc: Vec<char> = Vec::new();
    loop
        invariant
            i + 1 <= pos <= s@.len(),
            i < s@.len(),
            s@[i as int] == '"',
            sp_str_body(s@, (i + 1) as int, Seq::empty()) == sp_str_body(s@, pos as int, acc@),
        decreases s@.len() - pos,
    {
        if pos >= s.len() {
            return None;
        }
        let c = s[pos];
        if c == '"' {
            proof {
                assert(sp_str_body(s@, pos as int, acc@) == Some((acc@, pos as int + 1)));
                assert(sp_string(s@, i as int) == sp_str_body(
                    s@,
                    i as int + 1,
                    Seq::<char>::empty(),
                ));
                assert(sp_string(s@, i as int) == Some((acc@, pos as int + 1)));
            }
            return Some((acc, pos + 1));
        }
        let ghost a0 = acc@;
        if c == '\\' {
            if s.len() - pos < 2 {
                return None;
            }
            let e = s[pos + 1];
            if e == '"' || e == '\\' || e == '/' {
                acc.push(e);
                proof {
                    assert(acc@ =~= a0 + seq![e]);
                }
                pos = pos + 2;
            } else if e == 'b' {
                acc.push('\u{8}');
                proof {
                    assert(acc@ =~= a0 + seq!['\u{8}']);
                }
                pos = pos + 2;
            } else if e == 'f' {
                acc.push('\u{c}');
                proof {
                    assert(acc@ =~= a0 + seq!['\u{c}']);
                }
                pos = pos + 2;
            } else if e == 'n' {
                acc.push('\n');
                proof {
                    assert(acc@ =~= a0 + seq!['\n']);
                }
                pos = pos + 2;
            } else if e == 'r' {
                acc.push('\r');
                proof {
                    assert(acc@ =~= a0 + seq!['\r']);
                }
                pos = pos + 2;
            } else if e == 't' {
                acc.push('\t');
                proof {
                    assert(acc@ =~= a0 + seq!['\t']);
                }
                pos = pos + 2;
            } else if e == 'u' {
                if s.len() - pos < 6 {
                    return None;
                }
                if !(is_hex_char(s[pos + 2]) && is_hex_char(s[pos + 3]) && is_hex_char(s[pos + 4])
                    && is_hex_char(s[pos + 5])) {
                    return None;
                }
                let h: u32 = hex_value(s[pos + 2]) * 0x1000 + hex_value(s[pos + 3]) * 0x100
                    + hex_value(s[pos + 4]) * 0x10 + hex_value(s[pos + 5]);
                if h < 0xD800 || h >= 0xE000 {
                    let c0 = char_from_u32(h).unwrap();
                    proof {
                        vstd::utf8::char_u32_cast(c0, h);
                    }
                    acc.push(c0);
                    proof {
                        assert(acc@ =~= a0 + seq![c0]);
                    }
                    pos = pos + 6;
                } else if h < 0xDC00 {
                    if s.len() - pos < 12 {
                        return None;
                    }
                    if !(s[pos + 6] == '\\' && s[pos + 7] == 'u') {
                        return None;
                    }
                    if !(is_hex_char(s[pos + 8]) && is_hex_char(s[pos + 9]) && is_hex_char(
                        s[pos + 10],
                    ) && is_hex_char(s[pos + 11])) {
                        return None;
                    }
                    let lo: u32 = hex_value(s[pos + 8]) * 0x1000 + hex_value(s[pos + 9]) * 0x100
                        + hex_value(s[pos + 10]) * 0x10 + hex_value(s[pos + 11]);
                    if !(0xDC00 <= lo && lo < 0xE000) {
                        return None;
                    }
                    let cp: u32 = 0x10000 + (h - 0xD800) * 0x400 + (lo - 0xDC00);
                    let c0 = char_from_u32(cp).unwrap();
                    proof {
                        vstd::utf8::char_u32_cast(c0, cp);
                    }
                    acc.push(c0);
                    proof {
                        assert(acc@ =~= a0 + seq![c0]);
                    }
                    pos = pos + 12;
                } else {
                    return None;
                }
            } else {
                return None;
            }
        } else if (c as u32) < 0x20 {
            return None;
        } else {
            acc.push(c);
            proof {
                assert(acc@ =~= a0 + seq![c]);
            }
            pos = pos + 1;
        }
    }
}

/// Parse one record object at `i`: its three members in any order.
#[verifier::rlimit(100)]
fn parse_todo(s: &Vec<char>, i: usize) -> (r: Option<(Todo, usize)>)
    requires
        i <= s@.len(),
    ensures
        r is None ==> sp_todo(s@, i as int) is None,
        r matches Some(p) ==> sp_todo(s@, i as int) == Some((p.0@, p.1 as int)) && i < p.1
            <= s@.len(),
{
    if !(i < s.len() && s[i] == '{') {
        return None;
    }
    let start = skip_ws_run(s, i + 1);
    let key_id = vec!['i', 'd'];
    let key_content = vec!['c', 'o', 'n', 't', 'e', 'n', 't'];
    let key_state = vec!['s', 't', 'a', 't', 'e'];
    proof {
        assert(key_id@ =~= seq!['i', 'd']);
        assert(key_content@ =~= seq!['c', 'o', 'n', 't', 'e', 'n', 't']);
        assert(key_state@ =~= seq!['s', 't', 'a', 't', 'e']);
    }
    let mut pos = start;
    let mut id: Option<u64> = None;
    let mut content: Option<Vec<char>> = None;
    let mut state: Option<TodoState> = None;
    loop
        invariant
            i < s@.len(),
            s@[i as int] == '{',
            start == skip_ws(s@, i + 1),
            i + 1 <= pos <= s@.len(),
            key_id@ == seq!['i', 'd'],
            key_content@ == seq!['c', 'o', 'n', 't', 'e', 'n', 't'],
            key_state@ == seq!['s', 't', 'a', 't', 'e'],
            sp_members(s@, start as int, None, None, None) == sp_members(
                s@,
                pos as int,
                id,
                match content {
                    Some(v) => Some(v@),
                    None => None,
                },
                state,
            ),
        decreases s@.len() - pos,
    {
        let (key, j) = match parse_string(s, pos) {
            None => {
                return None;
            },
            Some(p) => p,
        };
        let j2 = match parse_symbol(s, j, ':') {
            None => {
                return None;
            },
            Some(j) => j,
        };
        let jv = skip_ws_run(s, j2);
        let mut jend: usize = 0;
        if eq_chars(&key, &key_id) {
            if id.is_some() {
                return None;
            }
            let (v, j3) = match parse_number(s, jv) {
                None => {
                    return None;
                },
                Some(p) => p,
            };
            id = Some(v);
            jend = j3;
        } else if eq_chars(&key, &key_content) {
            if content.is_some() {
                return None;
            }
            let (c, j3) = match parse_string(s, jv) {
                None => {
                    return None;
                },
                Some(p) => p,
            };
            content = Some(c);
            jend = j3;
        } else if eq_chars(&key, &key_state) {
            if state.is_some() {
                return None;
            }
            let (tag, j3) = match parse_string(s, jv) {
                None => {
                    return None;
                },
                Some(p) => p,
            };
            let st = match parse_state_tag(&tag) {
                None => {
                    return None;
                },
                Some(st) => st,
            };
            state = Some(st);
            jend = j3;
        } else {
            return None;
        }
        let k = skip_ws_run(s, jend);
        if k < s.len() && s[k] == ',' {
            let m = skip_ws_run(s, k + 1);
            pos = m;
        } else if k < s.len() && s[k] == '}' {
            match (id, content, state) {
                (Some(idv), Some(cv), Some(stv)) => {
                    let content_string = chars_to_string(&cv);
                    return Some((Todo { id: idv, content: content_string, state: stv }, k + 1));
                },
                _ => {
                    return None;
                },
            }
        } else {
            return None;
        }
    }
}

/// The state a stored tag denotes, if any.
fn parse_state_tag(tag: &Vec<char>) -> (r: Option<TodoState>)
    ensures
        r == state_of_tag(tag@),
{
    let pending = vec!['P', 'e', 'n', 'd', 'i', 'n', 'g'];
    let completed = vec!['C', 'o', 'm', 'p', 'l', 'e', 't', 'e', 'd'];
    proof {
        assert(pending@ =~= enc_state(TodoState::Pending));
        assert(completed@ =~= enc_state(TodoState::Completed));
    }
    if eq_chars(tag, &pending) {
        Some(TodoState::Pending)
    } else if eq_chars(tag, &completed) {
        Some(TodoState::Completed)
    } else {
        None
    }
}

/// Whether two character vectors hold the same characters.
fn eq_chars(a: &Vec<char>, b: &Vec<char>) -> (r: bool)
    ensures
        r == (a@ == b@),
{
    if a.len() != b.len() {
        return false;
    }
    let mut k: usize = 0;
    while k < a.len()
        invariant
            0 <= k <= a@.len(),
            a@.len() == b@.len(),
            forall|m: int| 0 <= m < k ==> a@[m] == b@[m],
        decreases a@.len() - k,
    {
        if a[k] != b[k] {
            return false;
        }
        k = k + 1;
    }
    proof {
        assert(a@ =~= b@);
    }
    true
}

/// Parse the remaining record objects of a non-empty array.
fn parse_items(s: &Vec<char>, i: usize) -> (r: Option<(Vec<Todo>, usize)>)
    requires
        i <= s@.len(),
    ensures
        r is None ==> sp_items(s@, i as int, Seq::empty()) is None,
        r matches Some(p) ==> sp_items(s@, i as int, Seq::empty()) == Some(
            (p.0.deep_view(), p.1 as int),
        ) && p.1 <= s@.len(),
{
    let mut acc: Vec<Todo> = Vec::new();
    let mut pos = i;
    assert(acc.deep_view() =~= Seq::<crate::model::TodoView>::empty());
    loop
        invariant
            i <= pos <= s@.len(),
            sp_items(s@, i as int, Seq::empty()) == sp_items(s@, pos as int, acc.deep_view()),
        decreases s@.len() - pos,
    {
        let (t, j) = match parse_todo(s, pos) {
            None => {
                return None;
            },
            Some(p) => p,
        };
        let k = skip_ws_run(s, j);
        if k < s.len() && s[k] == ',' {
            let m = skip_ws_run(s, k + 1);
            let ghost old_dv = acc.deep_view();
            acc.push(t);
            proof {
                assert(acc.deep_view() =~= old_dv.push(t@));
            }
            pos = m;
        } else if k < s.len() && s[k] == ']' {
            let ghost old_dv = acc.deep_view();
            acc.push(t);
            proof {
                assert(acc.deep_view() =~= old_dv.push(t@));
            }
            return Some((acc, k + 1));
        } else {
            return None;
        }
    }
}

/// Parse a whole array of records at `i`.
fn parse_todos(s: &Vec<char>, i: usize) -> (r: Option<(Vec<Todo>, usize)>)
    requires
        i <= s@.len(),
    ensures
        r is None ==> sp_todos(s@, i as int) is None,
        r matches Some(p) ==> sp_todos(s@, i as int) == Some((p.0.deep_view(), p.1 as int)) && p.1
            <= s@.len(),
{
    if !(i < s.len() && s[i] == '[') {
        return None;
    }
    let j = skip_ws_run(s, i + 1);
    if j < s.len() && s[j] == ']' {
        let out: Vec<Todo> = Vec::new();
        assert(out.deep_view() =~= Seq::<crate::model::TodoView>::empty());
        return Some((out, j + 1));
    }
    parse_items(s, j)
}

/// Read store content back into records. `None` means the text is not a
/// well-formed store file; no partial list is ever returned.
pub fn decode_todos(text: &str) -> (r: Option<Vec<Todo>>)
    ensures
        r matches Some(v) ==> decode_spec(text@) == Some(v.deep_view()),
        r is None ==> decode_spec(text@) is None,
{
    let s = str_to_chars(text);
    let i = skip_ws_run(&s, 0);
    match parse_todos(&s, i) {
        None => None,
        Some((v, j)) => {
            let k = skip_ws_run(&s, j);
            if k == s.len() {
                Some(v)
            } else {
                None
            }
        },
    }
}

} // verus!
