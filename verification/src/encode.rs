//! The executable encoder: turns a list of records into the canonical
//! store content, proved equal to [`crate::format::enc_todos`].
use vstd::prelude::*;

use crate::format::{
    dec_digit, enc_list_body, enc_state, enc_string, enc_string_body, enc_todo, enc_todos, enc_u64,
    esc_char, hex_digit,
};
use crate::model::{Todo, TodoState};
use crate::text::chars_to_string;

verus! {

/// The decimal digit character for a value below ten.
fn digit_char(n: u64) -> (c: char)
    requires
        n < 10,
    ensures
        c == dec_digit(n as nat),
{
    if n == 0 {
        '0'
    } else if n == 1 {
        '1'
    } else if n == 2 {
        '2'
    } else if n == 3 {
        '3'
    } else if n == 4 {
        '4'
    } else if n == 5 {
        '5'
    } else if n == 6 {
        '6'
    } else if n == 7 {
        '7'
    } else if n == 8 {
        '8'
    } else {
        '9'
    }
}

/// The lowercase hexadecimal digit character for a value below sixteen.
fn hex_char(n: u32) -> (c: char)
    requires
        n < 16,
    ensures
        c == hex_digit(n as nat),
{
    if n < 10 {
        digit_char(n as u64)
    } else if n == 10 {
        'a'
    } else if n == 11 {
        'b'
    } else if n == 12 {
        'c'
    } else if n == 13 {
        'd'
    } else if n == 14 {
        'e'
    } else {
        'f'
    }
}

/// Append the decimal digits of `n`.
fn push_u64(out: &mut Vec<char>, n: u64)
    ensures
        final(out)@ == old(out)@ + enc_u64(n as nat),
    decreases n,
{
    if n < 10 {
        out.push(digit_char(n));
        assert(out@ =~= old(out)@ + enc_u64(n as nat));
    } else {
        push_u64(out, n / 10);
        out.push(digit_char(n % 10));
        assert(out@ =~= old(out)@ + enc_u64(n as nat));
    }
}

/// Append one content character in its stored shape.
fn push_esc(out: &mut Vec<char>, c: char)
    ensures
        final(out)@ == old(out)@ + esc_char(c),
{
    if c == '"' {
        out.push('\\');
        out.push('"');
    } else if c == '\\' {
        out.push('\\');
        out.push('\\');
    } else if c == '\u{8}' {
        out.push('\\');
        out.push('b');
    } else if c == '\u{c}' {
        out.push('\\');
        out.push('f');
    } else if c == '\n' {
        out.push('\\');
        out.push('n');
    } else if c == '\r' {
        out.push('\\');
        out.push('r');
    } else if c == '\t' {
        out.push('\\');
        out.push('t');
    } else if (c as u32) < 0x20 {
        let v = c as u32;
        out.push('\\');
        out.push('u');
        out.push('0');
        out.push('0');
        out.push(hex_char(v / 16));
        out.push(hex_char(v % 16));
    } else {
        out.push(c);
    }
    assert(out@ =~= old(out)@ + esc_char(c));
}

/// Append a whole string literal, quotes included.
fn push_string(out: &mut Vec<char>, s: &str)
    ensures
        final(out)@ == old(out)@ + enc_string(s@),
{
    let n = vstd::string::StrSliceExecFns::unicode_len(s);
    out.push('"');
    let mut i: usize = 0;
    while i < n
        invariant
            i <= n,
            n == s@.len(),
            out@ == old(out)@ + seq!['"'] + enc_string_body(s@.subrange(0, i as int)),
        decreases n - i,
    {
        let c = vstd::string::StrSliceExecFns::get_char(s, i);
        push_esc(out, c);
        i = i + 1;
        proof {
            let pre = s@.subrange(0, i as int);
            assert(pre.drop_last() =~= s@.subrange(0, i - 1 as int));
            assert(pre.last() == s@[i - 1]);
        }
        assert(out@ =~= old(out)@ + seq!['"'] + enc_string_body(s@.subrange(0, i as int)));
    }
    out.push('"');
    proof {
        assert(s@.subrange(0, n as int) =~= s@);
        assert(out@ =~= old(out)@ + enc_string(s@));
    }
}

/// Append one record as its JSON object.
#[verifier::rlimit(50)]
fn push_todo(out: &mut Vec<char>, t: &Todo)
    ensures
        final(out)@ == old(out)@ + enc_todo(t@),
{
    out.push('{');
    out.push('"');
    out.push('i');
    out.push('d');
    out.push('"');
    out.push(':');
    push_u64(out, t.id);
    out.push(',');
    out.push('"');
    out.push('c');
    out.push('o');
    out.push('n');
    out.push('t');
    out.push('e');
    out.push('n');
    out.push('t');
    out.push('"');
    out.push(':');
    push_string(out, t.content.as_str());
    out.push(',');
    out.push('"');
    out.push('s');
    out.push('t');
    out.push('a');
    out.push('t');
    out.push('e');
    out.push('"');
    out.push(':');
    out.push('"');
    match t.state {
        TodoState::Pending => {
            out.push('P');
            out.push('e');
            out.push('n');
            out.push('d');
            out.push('i');
            out.push('n');
            out.push('g');
        },
        TodoState::Completed => {
            out.push('C');
            out.push('o');
            out.push('m');
            out.push('p');
            out.push('l');
            out.push('e');
            out.push('t');
            out.push('e');
            out.push('d');
        },
    }
    out.push('"');
    out.push('}');
    assert(out@ =~= old(out)@ + enc_todo(t@));
}

/// The canonical store content for the given records: a JSON array with
/// one object per record, in order.
pub fn encode_todos(todos: &Vec<Todo>) -> (r: String)
    ensures
        r@ == enc_todos(todos.deep_view()),
{
    let mut out: Vec<char> = Vec::new();
    out.push('[');
    let n = todos.len();
    let mut i: usize = 0;
    while i < n
        invariant
            i <= n,
            n == todos@.len(),
            out@ == seq!['['] + enc_list_body(todos.deep_view().subrange(0, i as int)),
        decreases n - i,
    {
        if i > 0 {
            out.push(',');
        }
        push_todo(&mut out, &todos[i]);
        i = i + 1;
        proof {
            let dv = todos.deep_view();
            let pre = dv.subrange(0, i as int);
            assert(pre.drop_last() =~= dv.subrange(0, i - 1 as int));
            assert(pre.last() == dv[i - 1]);
            assert(out@ =~= seq!['['] + enc_list_body(pre));
        }
    }
    out.push(']');
    proof {
        assert(todos.deep_view().subrange(0, n as int) =~= todos.deep_view());
        assert(out@ =~= enc_todos(todos.deep_view()));
    }
    chars_to_string(&out)
}

} // verus!
