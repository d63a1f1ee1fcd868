//! The store format round-trips: parsing the canonical encoding of any
//! record sequence yields exactly that sequence. [`lemma_store_round_trip`]
//! is the statement; the lemmas before it walk the grammar piece by piece.
use vstd::prelude::*;

use crate::format::{
    dec_digit, digit_run_end, digit_val, digits_val, enc_list_body, enc_state, enc_string,
    enc_string_body, enc_todo, enc_todos, enc_u64, esc_char, hex_digit, hex_val, is_digit,
    is_hex_digit, is_json_ws, skip_ws, sp_items, sp_member, sp_members, sp_number, sp_str_body,
    sp_string, sp_symbol, sp_todo, sp_todos, state_of_tag, decode_spec,
};
use crate::model::{TodoState, TodoView};

verus! {

/// A slice known to equal a concatenation splits into slices of the parts.
proof fn lemma_subrange_concat(s: Seq<char>, i: int, x: Seq<char>, y: Seq<char>)
    requires
        0 <= i,
        i + x.len() + y.len() <= s.len(),
        s.subrange(i, i + x.len() + y.len()) == x + y,
    ensures
        s.subrange(i, i + x.len() as int) == x,
        s.subrange(i + x.len() as int, i + x.len() + y.len()) == y,
{
    let whole = s.subrange(i, i + x.len() + y.len());
    assert forall|k: int| 0 <= k < x.len() implies s.subrange(i, i + x.len() as int)[k] == x[k] by {
        assert(whole[k] == (x + y)[k]);
    }
    assert(s.subrange(i, i + x.len() as int) =~= x);
    assert forall|k: int| 0 <= k < y.len() implies s.subrange(
        i + x.len() as int,
        i + x.len() + y.len(),
    )[k] == y[k] by {
        assert(whole[x.len() + k] == (x + y)[x.len() + k]);
    }
    assert(s.subrange(i + x.len() as int, i + x.len() + y.len()) =~= y);
}

/// Decimal digit characters carry their value and are digits, not spaces.
proof fn lemma_dec_digit(m: nat)
    requires
        m < 10,
    ensures
        is_digit(dec_digit(m)),
        digit_val(dec_digit(m)) == m,
        dec_digit(m) == '0' <==> m == 0,
        !is_json_ws(dec_digit(m)),
{
}

/// Hexadecimal digit characters carry their value.
proof fn lemma_hex_digit(m: nat)
    requires
        m < 16,
    ensures
        is_hex_digit(hex_digit(m)),
        hex_val(hex_digit(m)) == m,
{
}

/// An encoded number is a non-empty run of digits with no leading zero.
proof fn lemma_enc_u64_digits(n: nat)
    ensures
        enc_u64(n).len() >= 1,
        forall|k: int| 0 <= k < enc_u64(n).len() ==> is_digit(#[trigger] enc_u64(n)[k]),
        n > 0 ==> enc_u64(n)[0] != '0',
        n == 0 ==> enc_u64(n) == seq!['0'],
    decreases n,
{
    if n < 10 {
        lemma_dec_digit(n);
    } else {
        lemma_enc_u64_digits(n / 10);
        lemma_dec_digit(n % 10);
        assert(enc_u64(n) == enc_u64(n / 10) + seq![dec_digit(n % 10)]);
        assert(enc_u64(n)[0] == enc_u64(n / 10)[0]);
    }
}

/// A run of digits closed off by a non-digit ends exactly there.
proof fn lemma_digit_run(s: Seq<char>, i: int, j: int)
    requires
        0 <= i <= j <= s.len(),
        forall|k: int| i <= k < j ==> is_digit(#[trigger] s[k]),
        j == s.len() || !is_digit(s[j]),
    ensures
        digit_run_end(s, i) == j,
    decreases j - i,
{
    if i < j {
        lemma_digit_run(s, i + 1, j);
    }
}

/// The digits of an encoded number denote the number.
proof fn lemma_digits_val_of_enc(s: Seq<char>, i: int, n: nat)
    requires
        0 <= i,
        i + enc_u64(n).len() <= s.len(),
        s.subrange(i, i + enc_u64(n).len()) == enc_u64(n),
    ensures
        digits_val(s, i, i + enc_u64(n).len()) == n,
    decreases n,
{
    let u = enc_u64(n);
    assert forall|k: int| 0 <= k < u.len() implies s[i + k] == u[k] by {
        assert(s.subrange(i, i + u.len() as int)[k] == u[k]);
    }
    if n < 10 {
        lemma_dec_digit(n);
        assert(u[0] == dec_digit(n));
        assert(s[i] == u[0]);
        assert(digits_val(s, i, i + 1) == digits_val(s, i, i) * 10 + digit_val(s[i]));
    } else {
        lemma_dec_digit(n % 10);
        let upre = enc_u64(n / 10);
        assert(u == upre + seq![dec_digit(n % 10)]);
        lemma_subrange_concat(s, i, upre, seq![dec_digit(n % 10)]);
        lemma_digits_val_of_enc(s, i, n / 10);
        assert(u[u.len() - 1] == dec_digit(n % 10));
        assert(s[i + u.len() - 1] == u[u.len() - 1]);
        assert(digits_val(s, i, i + u.len()) == digits_val(s, i, i + u.len() - 1) * 10 + digit_val(
            s[i + u.len() - 1],
        ));
    }
}

/// Parsing at an encoded number, closed off by a non-digit, yields the
/// number and stops right after it.
proof fn lemma_sp_number_of_enc(s: Seq<char>, i: int, n: u64)
    requires
        0 <= i,
        i + enc_u64(n as nat).len() <= s.len(),
        s.subrange(i, i + enc_u64(n as nat).len()) == enc_u64(n as nat),
        i + enc_u64(n as nat).len() == s.len() || !is_digit(s[i + enc_u64(n as nat).len()]),
    ensures
        sp_number(s, i) == Some((n, i + enc_u64(n as nat).len())),
{
    let u = enc_u64(n as nat);
    lemma_enc_u64_digits(n as nat);
    assert forall|k: int| 0 <= k < u.len() implies s[i + k] == u[k] by {
        assert(s.subrange(i, i + u.len() as int)[k] == u[k]);
    }
    if n == 0 {
        assert(u[0] == '0');
        assert(s[i + 0] == u[0]);
        assert(s[i] == '0');
    } else {
        assert(s[i] == u[0]);
        assert(is_digit(s[i]));
        assert(s[i] != '0');
        assert forall|k: int| i <= k < i + u.len() implies is_digit(#[trigger] s[k]) by {
            assert(is_digit(u[k - i]));
            assert(s[i + (k - i)] == u[k - i]);
        }
        lemma_digit_run(s, i, i + u.len());
        lemma_digits_val_of_enc(s, i, n as nat);
    }
}

/// The body of an encoded string can be peeled from the front.
proof fn lemma_enc_body_flip(c: Seq<char>)
    requires
        c.len() >= 1,
    ensures
        enc_string_body(c) == esc_char(c[0]) + enc_string_body(c.drop_first()),
    decreases c.len(),
{
    if c.len() == 1 {
        assert(c.drop_last() =~= Seq::<char>::empty());
        assert(c.drop_first() =~= Seq::<char>::empty());
        assert(enc_string_body(Seq::<char>::empty()) == Seq::<char>::empty());
        assert(enc_string_body(c) == enc_string_body(c.drop_last()) + esc_char(c.last()));
        assert(enc_string_body(c) =~= esc_char(c[0]) + enc_string_body(c.drop_first()));
    } else {
        let dl = c.drop_last();
        lemma_enc_body_flip(dl);
        assert(dl[0] == c[0]);
        assert(dl.drop_first() =~= c.drop_first().drop_last());
        assert(c.drop_first().last() == c.last());
        assert(c.drop_first().len() >= 1);
        assert(enc_string_body(c.drop_first()) == enc_string_body(c.drop_first().drop_last())
            + esc_char(c.drop_first().last()));
        assert(enc_string_body(c) == enc_string_body(dl) + esc_char(c.last()));
        assert(enc_string_body(c) =~= esc_char(c[0]) + enc_string_body(c.drop_first()));
    }
}

/// Parsing inside a string literal at its encoded body consumes the body
/// and the closing quote, and appends exactly the original characters.
#[verifier::rlimit(100)]
proof fn lemma_sp_str_of_enc(s: Seq<char>, i: int, acc: Seq<char>, c: Seq<char>)
    requires
        0 <= i,
        i + enc_string_body(c).len() + 1 <= s.len(),
        s.subrange(i, i + enc_string_body(c).len() + 1) == enc_string_body(c) + seq!['"'],
    ensures
        sp_str_body(s, i, acc) == Some((acc + c, i + enc_string_body(c).len() + 1)),
    decreases c.len(),
{
    let body = enc_string_body(c);
    if c.len() == 0 {
        assert(s.subrange(i, i + 1)[0] == (body + seq!['"'])[0]);
        assert(s[i] == '"');
        assert(acc + c =~= acc);
    } else {
        let c0 = c[0];
        let rest = c.drop_first();
        let e = esc_char(c0);
        let brest = enc_string_body(rest);
        lemma_enc_body_flip(c);
        assert(body == e + brest);
        assert(body + seq!['"'] =~= e + (brest + seq!['"']));
        lemma_subrange_concat(s, i, e, brest + seq!['"']);
        let i2 = i + e.len();
        assert forall|k: int| 0 <= k < e.len() implies s[i + k] == e[k] by {
            assert(s.subrange(i, i + e.len() as int)[k] == e[k]);
        }
        assert(acc + c =~= (acc + seq![c0]) + rest);
        if c0 == '"' {
            assert(s[i] == '\\' && s[i + 1] == '"');
            lemma_sp_str_of_enc(s, i2, acc + seq![c0], rest);
        } else if c0 == '\\' {
            assert(s[i] == '\\' && s[i + 1] == '\\');
            lemma_sp_str_of_enc(s, i2, acc + seq![c0], rest);
        } else if c0 == '\u{8}' {
            assert(s[i] == '\\' && s[i + 1] == 'b');
            lemma_sp_str_of_enc(s, i2, acc + seq![c0], rest);
        } else if c0 == '\u{c}' {
            assert(s[i] == '\\' && s[i + 1] == 'f');
            lemma_sp_str_of_enc(s, i2, acc + seq![c0], rest);
        } else if c0 == '\n' {
            assert(s[i] == '\\' && s[i + 1] == 'n');
            lemma_sp_str_of_enc(s, i2, acc + seq![c0], rest);
        } else if c0 == '\r' {
            assert(s[i] == '\\' && s[i + 1] == 'r');
            lemma_sp_str_of_enc(s, i2, acc + seq![c0], rest);
        } else if c0 == '\t' {
            assert(s[i] == '\\' && s[i + 1] == 't');
            lemma_sp_str_of_enc(s, i2, acc + seq![c0], rest);
        } else if (c0 as u32) < 0x20 {
            let v = c0 as u32;
            lemma_hex_digit((v / 16) as nat);
            lemma_hex_digit((v % 16) as nat);
            assert(s[i] == '\\' && s[i + 1] == 'u' && s[i + 2] == '0' && s[i + 3] == '0');
            assert(s[i + 4] == hex_digit((v / 16) as nat));
            assert(s[i + 5] == hex_digit((v % 16) as nat));
            let h = hex_val(s[i + 2]) * 0x1000 + hex_val(s[i + 3]) * 0x100 + hex_val(s[i + 4])
                * 0x10 + hex_val(s[i + 5]);
            assert(h == v);
            assert(h < 0xD800);
            vstd::utf8::char_u32_cast(c0, v);
            assert((h as u32 as char) == c0);
            lemma_sp_str_of_enc(s, i2, acc + seq![c0], rest);
        } else {
            assert(e =~= seq![c0]);
            assert(e[0] == c0);
            assert(s[i] == c0);
            lemma_sp_str_of_enc(s, i2, acc + seq![c0], rest);
        }
    }
}

/// Parsing at a whole encoded string literal yields its characters.
proof fn lemma_sp_string_of_enc(s: Seq<char>, i: int, c: Seq<char>)
    requires
        0 <= i,
        i + enc_string(c).len() <= s.len(),
        s.subrange(i, i + enc_string(c).len()) == enc_string(c),
    ensures
        sp_string(s, i) == Some((c, i + enc_string(c).len())),
{
    let body = enc_string_body(c);
    assert(enc_string(c) =~= seq!['"'] + (body + seq!['"']));
    lemma_subrange_concat(s, i, seq!['"'], body + seq!['"']);
    assert(s.subrange(i, i + 1)[0] == '"');
    assert(s[i] == '"');
    lemma_sp_str_of_enc(s, i + 1, Seq::empty(), c);
    assert(Seq::<char>::empty() + c =~= c);
}

/// Skipping whitespace at a position holding none stands still.
proof fn lemma_skip_ws_at(s: Seq<char>, i: int)
    requires
        0 <= i,
        i == s.len() || !is_json_ws(s[i]),
    ensures
        skip_ws(s, i) == i,
{
}

/// A sequence of characters that the encoder leaves bare is its own
/// string-literal body.
proof fn lemma_enc_body_plain(c: Seq<char>)
    requires
        forall|k: int| 0 <= k < c.len() ==> esc_char(#[trigger] c[k]) == seq![c[k]],
    ensures
        enc_string_body(c) == c,
    decreases c.len(),
{
    if c.len() > 0 {
        let dl = c.drop_last();
        assert(forall|k: int| 0 <= k < dl.len() ==> esc_char(#[trigger] dl[k]) == seq![dl[k]]) by {
            assert(forall|k: int| 0 <= k < dl.len() ==> dl[k] == c[k]);
        }
        lemma_enc_body_plain(dl);
        assert(esc_char(c.last()) == seq![c.last()]);
        assert(enc_string_body(c) =~= c);
    }
}

/// A state tag is its own string-literal body, and denotes its state.
proof fn lemma_enc_state_body(st: TodoState)
    ensures
        enc_string_body(enc_state(st)) == enc_state(st),
        state_of_tag(enc_state(st)) == Some(st),
{
    let tag = enc_state(st);
    assert forall|k: int| 0 <= k < tag.len() implies esc_char(#[trigger] tag[k]) == seq![tag[k]] by {
        assert(tag[k] != '"' && tag[k] != '\\' && (tag[k] as u32) >= 0x20);
    }
    lemma_enc_body_plain(tag);
}

/// A key made of bare characters is its own encoded string literal.
proof fn lemma_enc_key(k: Seq<char>)
    requires
        forall|j: int| 0 <= j < k.len() ==> esc_char(#[trigger] k[j]) == seq![k[j]],
    ensures
        enc_string(k) == seq!['"'] + k + seq!['"'],
{
    lemma_enc_body_plain(k);
}

/// Parsing a member whose key is `id` and whose value is an encoded
/// number records the number.
proof fn lemma_sp_member_id(
    s: Seq<char>,
    p: int,
    n: u64,
    c0: Option<Seq<char>>,
    st0: Option<TodoState>,
)
    requires
        0 <= p,
        s.subrange(p, p + 4) == seq!['"', 'i', 'd', '"'],
        p + 4 < s.len(),
        s[p + 4] == ':',
        p + 5 + enc_u64(n as nat).len() <= s.len(),
        s.subrange(p + 5, p + 5 + enc_u64(n as nat).len()) == enc_u64(n as nat),
        p + 5 + enc_u64(n as nat).len() == s.len() || !is_digit(s[p + 5 + enc_u64(n as nat).len()]),
    ensures
        sp_member(s, p, None, c0, st0) == Some((Some(n), c0, st0, p + 5 + enc_u64(n as nat).len())),
{
    let kid = seq!['i', 'd'];
    assert forall|j: int| 0 <= j < kid.len() implies esc_char(#[trigger] kid[j]) == seq![
        kid[j],
    ] by {
        assert(kid[j] != '"' && kid[j] != '\\' && (kid[j] as u32) >= 0x20);
    }
    lemma_enc_key(kid);
    assert(s.subrange(p, p + 4) =~= enc_string(kid));
    lemma_sp_string_of_enc(s, p, kid);
    lemma_skip_ws_at(s, p + 4);
    assert(sp_symbol(s, p + 4, ':') == Some(p + 5));
    let u = enc_u64(n as nat);
    lemma_enc_u64_digits(n as nat);
    assert(s[p + 5] == u[0]) by {
        assert(s.subrange(p + 5, p + 5 + u.len())[0] == u[0]);
    }
    assert(!is_json_ws(s[p + 5])) by {
        assert(is_digit(u[0]));
    }
    lemma_skip_ws_at(s, p + 5);
    lemma_sp_number_of_enc(s, p + 5, n);
}

/// Parsing a member whose key is `content` and whose value is an encoded
/// string literal records the string.
proof fn lemma_sp_member_content(
    s: Seq<char>,
    p: int,
    c: Seq<char>,
    id0: Option<u64>,
    st0: Option<TodoState>,
)
    requires
        0 <= p,
        s.subrange(p, p + 9) == seq!['"', 'c', 'o', 'n', 't', 'e', 'n', 't', '"'],
        p + 9 < s.len(),
        s[p + 9] == ':',
        p + 10 + enc_string(c).len() <= s.len(),
        s.subrange(p + 10, p + 10 + enc_string(c).len()) == enc_string(c),
    ensures
        sp_member(s, p, id0, None, st0) == Some((id0, Some(c), st0, p + 10 + enc_string(c).len())),
{
    let kc = seq!['c', 'o', 'n', 't', 'e', 'n', 't'];
    assert forall|j: int| 0 <= j < kc.len() implies esc_char(#[trigger] kc[j]) == seq![kc[j]] by {
        assert(kc[j] != '"' && kc[j] != '\\' && (kc[j] as u32) >= 0x20);
    }
    lemma_enc_key(kc);
    assert(s.subrange(p, p + 9) =~= enc_string(kc));
    lemma_sp_string_of_enc(s, p, kc);
    lemma_skip_ws_at(s, p + 9);
    assert(sp_symbol(s, p + 9, ':') == Some(p + 10));
    assert(s[p + 10] == '"') by {
        assert(s.subrange(p + 10, p + 10 + enc_string(c).len())[0] == enc_string(c)[0]);
    }
    lemma_skip_ws_at(s, p + 10);
    lemma_sp_string_of_enc(s, p + 10, c);
}

/// Parsing a member whose key is `state` and whose value is a state tag
/// records the state.
proof fn lemma_sp_member_state(
    s: Seq<char>,
    p: int,
    st: TodoState,
    id0: Option<u64>,
    c0: Option<Seq<char>>,
)
    requires
        0 <= p,
        s.subrange(p, p + 7) == seq!['"', 's', 't', 'a', 't', 'e', '"'],
        p + 7 < s.len(),
        s[p + 7] == ':',
        p + 8 + enc_string(enc_state(st)).len() <= s.len(),
        s.subrange(p + 8, p + 8 + enc_string(enc_state(st)).len()) == enc_string(enc_state(st)),
    ensures
        sp_member(s, p, id0, c0, None) == Some(
            (id0, c0, Some(st), p + 8 + enc_string(enc_state(st)).len()),
        ),
{
    let ks = seq!['s', 't', 'a', 't', 'e'];
    assert forall|j: int| 0 <= j < ks.len() implies esc_char(#[trigger] ks[j]) == seq![ks[j]] by {
        assert(ks[j] != '"' && ks[j] != '\\' && (ks[j] as u32) >= 0x20);
    }
    lemma_enc_key(ks);
    assert(s.subrange(p, p + 7) =~= enc_string(ks));
    lemma_sp_string_of_enc(s, p, ks);
    lemma_skip_ws_at(s, p + 7);
    assert(sp_symbol(s, p + 7, ':') == Some(p + 8));
    assert(s[p + 8] == '"') by {
        assert(s.subrange(p + 8, p + 8 + enc_string(enc_state(st)).len())[0] == enc_string(
            enc_state(st),
        )[0]);
    }
    lemma_skip_ws_at(s, p + 8);
    lemma_enc_state_body(st);
    lemma_sp_string_of_enc(s, p + 8, enc_state(st));
}

/// Parsing at an encoded record object yields the record.
#[verifier::rlimit(100)]
proof fn lemma_sp_todo_of_enc(s: Seq<char>, i: int, t: TodoView)
    requires
        0 <= i,
        i + enc_todo(t).len() <= s.len(),
        s.subrange(i, i + enc_todo(t).len()) == enc_todo(t),
    ensures
        sp_todo(s, i) == Some((t, i + enc_todo(t).len())),
{
    let e = enc_todo(t);
    let u = enc_u64(t.id as nat);
    let es = enc_string(t.content);
    let st = enc_state(t.state);
    let a = seq!['{', '"', 'i', 'd', '"', ':'];
    let b = seq![',', '"', 'c', 'o', 'n', 't', 'e', 'n', 't', '"', ':'];
    let cs = seq![',', '"', 's', 't', 'a', 't', 'e', '"', ':', '"'];
    let d = seq!['"', '}'];
    let g6 = a + u + b + es + cs + st;
    let g5 = a + u + b + es + cs;
    let g4 = a + u + b + es;
    let g3 = a + u + b;
    let g2 = a + u;
    assert(e == g6 + d);
    let p1 = i + 6;
    let p2 = p1 + u.len();
    let p3 = p2 + 11;
    let p4 = p3 + es.len();
    let p5 = p4 + 10;
    let p6 = p5 + st.len();
    lemma_subrange_concat(s, i, g6, d);
    lemma_subrange_concat(s, i, g5, st);
    lemma_subrange_concat(s, i, g4, cs);
    lemma_subrange_concat(s, i, g3, es);
    lemma_subrange_concat(s, i, g2, b);
    lemma_subrange_concat(s, i, a, u);
    // the literal segments, character by character
    assert(s[i] == '{' && s[i + 1] == '"' && s[i + 2] == 'i' && s[i + 3] == 'd' && s[i + 4] == '"'
        && s[i + 5] == ':') by {
        assert(forall|k: int| 0 <= k < 6 ==> s[i + k] == #[trigger] s.subrange(i, i + 6)[k]);
    }
    assert(s[p2] == ',' && s[p2 + 1] == '"' && s[p2 + 2] == 'c' && s[p2 + 3] == 'o' && s[p2 + 4]
        == 'n' && s[p2 + 5] == 't' && s[p2 + 6] == 'e' && s[p2 + 7] == 'n' && s[p2 + 8] == 't' && s[
        p2 + 9] == '"' && s[p2 + 10] == ':') by {
        assert(forall|k: int| 0 <= k < 11 ==> s[p2 + k] == #[trigger] s.subrange(p2, p3)[k]);
    }
    assert(s[p4] == ',' && s[p4 + 1] == '"' && s[p4 + 2] == 's' && s[p4 + 3] == 't' && s[p4 + 4]
        == 'a' && s[p4 + 5] == 't' && s[p4 + 6] == 'e' && s[p4 + 7] == '"' && s[p4 + 8] == ':' && s[
        p4 + 9] == '"') by {
        assert(forall|k: int| 0 <= k < 10 ==> s[p4 + k] == #[trigger] s.subrange(p4, p5)[k]);
    }
    assert(s[p6] == '"' && s[p6 + 1] == '}') by {
        assert(forall|k: int| 0 <= k < 2 ==> s[p6 + k] == #[trigger] s.subrange(p6, p6 + 2)[k]);
    }
    // the id member in store order
    lemma_skip_ws_at(s, i + 1);
    assert(s.subrange(i + 1, i + 5) =~= seq!['"', 'i', 'd', '"']);
    lemma_sp_member_id(s, i + 1, t.id, None, None);
    // the content member
    lemma_skip_ws_at(s, p2);
    lemma_skip_ws_at(s, p2 + 1);
    assert(s.subrange(p2 + 1, p2 + 10) =~= seq!['"', 'c', 'o', 'n', 't', 'e', 'n', 't', '"']);
    lemma_sp_member_content(s, p2 + 1, t.content, Some(t.id), None);
    // the state member
    lemma_skip_ws_at(s, p4);
    lemma_skip_ws_at(s, p4 + 1);
    assert(s.subrange(p4 + 1, p4 + 8) =~= seq!['"', 's', 't', 'a', 't', 'e', '"']);
    assert(s.subrange(p4 + 9, p6 + 1) =~= enc_string(st)) by {
        assert(s.subrange(p5, p6) == st);
        assert(forall|k: int| 0 <= k < st.len() ==> s[p5 + k] == #[trigger] s.subrange(p5, p6)[k]);
        lemma_enc_state_body(t.state);
        assert(enc_string(st) == seq!['"'] + enc_string_body(st) + seq!['"']);
    }
    lemma_sp_member_state(s, p4 + 1, t.state, Some(t.id), Some(t.content));
    // the members chain through the commas to the closing brace
    lemma_skip_ws_at(s, p6 + 1);
    assert(sp_members(s, p4 + 1, Some(t.id), Some(t.content), None) == Some(
        (TodoView { id: t.id, content: t.content, state: t.state }, p6 + 2),
    ));
    assert(sp_members(s, p2 + 1, Some(t.id), None, None) == sp_members(
        s,
        p4 + 1,
        Some(t.id),
        Some(t.content),
        None,
    ));
    assert(sp_members(s, i + 1, None, None, None) == sp_members(s, p2 + 1, Some(t.id), None, None));
    assert(t == (TodoView { id: t.id, content: t.content, state: t.state }));
}

/// The records between the brackets can be peeled from the front.
proof fn lemma_enc_list_flip(ts: Seq<TodoView>)
    requires
        ts.len() >= 2,
    ensures
        enc_list_body(ts) == enc_todo(ts[0]) + seq![','] + enc_list_body(ts.drop_first()),
    decreases ts.len(),
{
    if ts.len() == 2 {
        let dl = ts.drop_last();
        let df = ts.drop_first();
        assert(dl.len() == 1 && df.len() == 1);
        assert(dl[0] == ts[0] && df[0] == ts[1]);
        assert(enc_list_body(dl) == enc_todo(ts[0]));
        assert(enc_list_body(df) == enc_todo(ts[1]));
        assert(ts.last() == ts[1]);
        assert(enc_list_body(ts) == enc_list_body(dl) + seq![','] + enc_todo(ts.last()));
        assert(enc_list_body(ts) =~= enc_todo(ts[0]) + seq![','] + enc_list_body(df));
    } else {
        let dl = ts.drop_last();
        lemma_enc_list_flip(dl);
        assert(dl[0] == ts[0]);
        assert(dl.drop_first() =~= ts.drop_first().drop_last());
        assert(ts.drop_first().last() == ts.last());
        assert(ts.drop_first().len() >= 2);
        assert(enc_list_body(ts.drop_first()) == enc_list_body(ts.drop_first().drop_last())
            + seq![','] + enc_todo(ts.drop_first().last()));
        assert(enc_list_body(ts) == enc_list_body(dl) + seq![','] + enc_todo(ts.last()));
        assert(enc_list_body(ts) =~= enc_todo(ts[0]) + seq![','] + enc_list_body(ts.drop_first()));
    }
}

/// An encoded record starts with an opening brace and is never empty.
proof fn lemma_enc_todo_head(t: TodoView)
    ensures
        enc_todo(t).len() >= 1,
        enc_todo(t)[0] == '{',
{
}

/// A non-empty encoded list starts with an opening brace.
proof fn lemma_enc_list_head(ts: Seq<TodoView>)
    requires
        ts.len() >= 1,
    ensures
        enc_list_body(ts).len() >= 1,
        enc_list_body(ts)[0] == '{',
{
    if ts.len() == 1 {
        lemma_enc_todo_head(ts[0]);
    } else {
        lemma_enc_list_flip(ts);
        lemma_enc_todo_head(ts[0]);
    }
}

/// Parsing the items of a non-empty encoded array appends exactly those
/// records and consumes through the closing bracket.
#[verifier::rlimit(100)]
proof fn lemma_sp_items_of_enc(s: Seq<char>, i: int, acc: Seq<TodoView>, ts: Seq<TodoView>)
    requires
        ts.len() >= 1,
        0 <= i,
        i + enc_list_body(ts).len() + 1 <= s.len(),
        s.subrange(i, i + enc_list_body(ts).len() + 1) == enc_list_body(ts) + seq![']'],
    ensures
        sp_items(s, i, acc) == Some((acc + ts, i + enc_list_body(ts).len() + 1)),
    decreases ts.len(),
{
    let body = enc_list_body(ts);
    let t0 = ts[0];
    let e0 = enc_todo(t0);
    lemma_enc_todo_head(t0);
    if ts.len() == 1 {
        assert(body == e0);
        lemma_subrange_concat(s, i, e0, seq![']']);
        lemma_sp_todo_of_enc(s, i, t0);
        let j = i + e0.len();
        assert(s[j] == ']') by {
            assert(s.subrange(j, j + 1)[0] == ']');
        }
        lemma_skip_ws_at(s, j);
        assert(acc.push(t0) =~= acc + ts);
    } else {
        lemma_enc_list_flip(ts);
        let rest = ts.drop_first();
        let brest = enc_list_body(rest);
        assert(body == e0 + seq![','] + brest);
        assert(body + seq![']'] =~= e0 + (seq![','] + (brest + seq![']'])));
        lemma_subrange_concat(s, i, e0, seq![','] + (brest + seq![']']));
        let j = i + e0.len();
        lemma_subrange_concat(s, j, seq![','], brest + seq![']']);
        lemma_sp_todo_of_enc(s, i, t0);
        assert(s[j] == ',') by {
            assert(s.subrange(j, j + 1)[0] == ',');
        }
        lemma_skip_ws_at(s, j);
        let m = j + 1;
        lemma_enc_list_head(rest);
        assert(s[m] == '{') by {
            assert(s.subrange(m, m + brest.len() + 1)[0] == (brest + seq![']'])[0]);
        }
        lemma_skip_ws_at(s, m);
        lemma_sp_items_of_enc(s, m, acc.push(t0), rest);
        assert(acc.push(t0) + rest =~= acc + ts);
    }
}

/// THE ROUND TRIP: the canonical encoding of any record sequence parses
/// back to exactly that sequence, in order and content.
pub proof fn lemma_store_round_trip(ts: Seq<TodoView>)
    ensures
        decode_spec(enc_todos(ts)) == Some(ts),
{
    let s = enc_todos(ts);
    let body = enc_list_body(ts);
    assert(s == seq!['['] + body + seq![']']);
    assert(s[0] == '[');
    lemma_skip_ws_at(s, 0);
    if ts.len() == 0 {
        assert(s =~= seq!['[', ']']);
        assert(s[1] == ']');
        lemma_skip_ws_at(s, 1);
        assert(sp_todos(s, 0) == Some((Seq::<TodoView>::empty(), 2int)));
        lemma_skip_ws_at(s, 2);
        assert(Seq::<TodoView>::empty() =~= ts);
    } else {
        lemma_enc_list_head(ts);
        assert(s[1] == body[0]);
        lemma_skip_ws_at(s, 1);
        assert(s.subrange(1, 1 + body.len() as int + 1) =~= body + seq![']']);
        lemma_sp_items_of_enc(s, 1, Seq::empty(), ts);
        assert(Seq::<TodoView>::empty() + ts =~= ts);
        assert(sp_todos(s, 0) == Some((ts, s.len() as int)));
        lemma_skip_ws_at(s, s.len() as int);
    }
}

} // verus!
