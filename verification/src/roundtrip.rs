//! Decoding written text gives the written value back.
//!
//! The writer's output format (`codec`) and the decoder's grammar
//! (`parse`) are both fixed as spec functions; this module proves,
//! for each piece of the record format — strings with their escapes,
//! booleans, numbers, string arrays, feature objects, dependency
//! kinds — that decoding the written text yields exactly the value
//! that was written, consuming exactly its own characters.

use vstd::prelude::*;
use crate::codec::{
    bool_json, dec_digits, esc_char, escape, fobj, hex_digit, joinc, kind_json, qstr, sarr,
};
use crate::index_entry::DependencyKind;
use crate::parse::{
    hex_val, is_digit, sp_bool, sp_digits, sp_fobj, sp_fobj_items, sp_kind, sp_lit, sp_num,
    sp_qstr, sp_sarr, sp_sarr_items, sp_str_body, unesc_short,
};

verus! {

/// Reading back a written hexadecimal digit gives its value.
proof fn lemma_hex_val_digit(d: int)
    requires
        0 <= d < 16,
    ensures
        hex_val(hex_digit(d)) == d,
{
    if d == 0 {
    } else if d == 1 {
    } else if d == 2 {
    } else if d == 3 {
    } else if d == 4 {
    } else if d == 5 {
    } else if d == 6 {
    } else if d == 7 {
    } else if d == 8 {
    } else if d == 9 {
    } else if d == 10 {
    } else if d == 11 {
    } else if d == 12 {
    } else if d == 13 {
    } else if d == 14 {
    } else {
    }
}

/// A written decimal digit is a digit character carrying its value.
proof fn lemma_digit_char_val(d: int)
    requires
        0 <= d < 10,
    ensures
        is_digit(hex_digit(d)),
        hex_digit(d) as int - '0' as int == d,
{
    if d == 0 {
    } else if d == 1 {
    } else if d == 2 {
    } else if d == 3 {
    } else if d == 4 {
    } else if d == 5 {
    } else if d == 6 {
    } else if d == 7 {
    } else if d == 8 {
    } else {
    }
}

/// A literal standing in the text parses as itself.
proof fn lemma_lit_at(t: Seq<char>, p: int, lit: Seq<char>, rest: Seq<char>)
    requires
        0 <= p <= t.len(),
        t =~= t.take(p) + lit + rest,
    ensures
        sp_lit(t, p, lit) == Some(p + lit.len()),
{
    assert(t.subrange(p, p + lit.len()) =~= lit);
}

/// Decoding the escaped characters of `v`, followed by the closing
/// quote, gives `v` back and stops right after the quote.
proof fn lemma_str_body_at(t: Seq<char>, p: int, v: Seq<char>, rest: Seq<char>)
    requires
        0 <= p <= t.len(),
        t =~= t.take(p) + escape(v) + seq!['"'] + rest,
    ensures
        sp_str_body(t, p) == Some((v, p + escape(v).len() + 1)),
    decreases v.len(),
{
    if v.len() == 0 {
        assert(t[p] == '"');
        assert(sp_str_body(t, p) == Some((Seq::<char>::empty(), p + 1)));
        assert(v =~= Seq::<char>::empty());
    } else {
        let c = v[0];
        let v2 = v.skip(1);
        assert(v =~= seq![c] + v2);
        assert(escape(v) == esc_char(c) + escape(v2));
        let e = esc_char(c);
        let p2 = p + e.len();
        assert(t =~= t.take(p2) + escape(v2) + seq!['"'] + rest) by {
            assert(t.take(p2) =~= t.take(p) + e);
        }
        lemma_str_body_at(t, p2, v2, rest);
        assert forall|x: int| 0 <= x < e.len() implies t[p + x] == e[x] by {}
        if c == '"' {
            assert(t[p] == '\\' && t[p + 1] == '"');
            assert(unesc_short('"') == c);
            assert(sp_str_body(t, p) == Some((seq![c] + v2, p2 + escape(v2).len() + 1)));
            assert(seq![c] + v2 =~= v);
        } else if c == '\\' {
            assert(t[p] == '\\' && t[p + 1] == '\\');
            assert(sp_str_body(t, p) == Some((seq![c] + v2, p2 + escape(v2).len() + 1)));
            assert(seq![c] + v2 =~= v);
        } else if c == '\u{8}' || c == '\u{9}' || c == '\u{a}' || c == '\u{c}' || c == '\u{d}' {
            assert(t[p] == '\\');
            assert(unesc_short(t[p + 1]) == c);
            assert(sp_str_body(t, p) == Some((seq![c] + v2, p2 + escape(v2).len() + 1)));
            assert(seq![c] + v2 =~= v);
        } else if (c as u32) < 32 {
            assert(t[p] == '\\' && t[p + 1] == 'u' && t[p + 2] == '0' && t[p + 3] == '0');
            let u = c as u32;
            let h1 = hex_digit((u / 16) as int);
            let h2 = hex_digit((u % 16) as int);
            assert(t[p + 4] == h1 && t[p + 5] == h2);
            lemma_hex_val_digit((u / 16) as int);
            lemma_hex_val_digit((u % 16) as int);
            assert(hex_val(h1) == (u / 16) as int && hex_val(h2) == (u % 16) as int);
            assert(hex_val(h1) * 16 + hex_val(h2) == u as int);
            assert(((hex_val(h1) * 16 + hex_val(h2)) as u32) == u);
            vstd::utf8::char_u32_cast(c, u);
            assert(((hex_val(h1) * 16 + hex_val(h2)) as u32) as char == c);
            assert(sp_str_body(t, p) == Some((seq![c] + v2, p2 + escape(v2).len() + 1)));
            assert(seq![c] + v2 =~= v);
        } else {
            assert(e =~= seq![c]);
            assert(t[p] == c);
            assert(c != '"' && c != '\\');
            assert(sp_str_body(t, p) == Some((seq![c] + v2, p2 + escape(v2).len() + 1)));
            assert(seq![c] + v2 =~= v);
        }
    }
}

/// A written JSON string parses as its value.
proof fn lemma_qstr_at(t: Seq<char>, p: int, v: Seq<char>, rest: Seq<char>)
    requires
        0 <= p <= t.len(),
        t =~= t.take(p) + qstr(v) + rest,
    ensures
        sp_qstr(t, p) == Some((v, p + qstr(v).len())),
{
    assert(t[p] == '"');
    assert(t =~= t.take(p + 1) + escape(v) + seq!['"'] + rest) by {
        assert(t.take(p + 1) =~= t.take(p) + seq!['"']);
    }
    lemma_str_body_at(t, p + 1, v, rest);
}

/// A written boolean parses as its value.
proof fn lemma_bool_at(t: Seq<char>, p: int, b: bool, rest: Seq<char>)
    requires
        0 <= p <= t.len(),
        t =~= t.take(p) + bool_json(b) + rest,
    ensures
        sp_bool(t, p) == Some((b, p + bool_json(b).len())),
{
    reveal_strlit("true");
    reveal_strlit("false");
    if b {
        lemma_lit_at(t, p, "true"@, rest);
    } else {
        assert(t[p] == 'f');
        assert(sp_lit(t, p, "true"@) is None) by {
            if 0 <= p && p + 4 <= t.len() && t.subrange(p, p + 4) == "true"@ {
                assert(t.subrange(p, p + 4)[0] == t[p]);
                assert(false);
            }
        }
        lemma_lit_at(t, p, "false"@, rest);
    }
}

/// Every decimal digit of a written number is a digit character.
proof fn lemma_dec_digits_are_digits(n: int)
    requires
        n >= 0,
    ensures
        dec_digits(n).len() >= 1,
        forall|x: int| 0 <= x < dec_digits(n).len() ==> is_digit(#[trigger] dec_digits(n)[x]),
    decreases n,
{
    if n < 10 {
        lemma_digit_char_val(n);
    } else {
        lemma_dec_digits_are_digits(n / 10);
        lemma_digit_char_val(n % 10);
        assert forall|x: int| 0 <= x < dec_digits(n).len() implies is_digit(
            #[trigger] dec_digits(n)[x],
        ) by {
            if x < dec_digits(n / 10).len() {
                assert(dec_digits(n)[x] == dec_digits(n / 10)[x]);
            } else {
                assert(dec_digits(n)[x] == hex_digit(n % 10));
            }
        }
    }
}

/// The value a run of digit characters folds to, starting from an
/// accumulator.
spec fn digits_val(ds: Seq<char>, acc: int) -> int
    decreases ds.len(),
{
    if ds.len() == 0 {
        acc
    } else {
        digits_val(ds.skip(1), acc * 10 + (ds[0] as int - '0' as int))
    }
}

/// Folding a concatenation folds the second run from the first's
/// result.
proof fn lemma_digits_val_concat(a: Seq<char>, b: Seq<char>, acc: int)
    ensures
        digits_val(a + b, acc) == digits_val(b, digits_val(a, acc)),
    decreases a.len(),
{
    if a.len() == 0 {
        assert(a + b =~= b);
    } else {
        assert((a + b).skip(1) =~= a.skip(1) + b);
        lemma_digits_val_concat(a.skip(1), b, acc * 10 + (a[0] as int - '0' as int));
    }
}

/// The written digits of `n` fold back to `n`.
proof fn lemma_dec_digits_val(n: int, acc: int)
    requires
        n >= 0,
    ensures
        digits_val(dec_digits(n), acc) == acc * vstd::arithmetic::power::pow(
            10,
            dec_digits(n).len() as nat,
        ) + n,
    decreases n,
{
    vstd::arithmetic::power::lemma_pow1(10);
    if n < 10 {
        lemma_digit_char_val(n);
        assert(dec_digits(n) =~= seq![hex_digit(n)]);
        assert(seq![hex_digit(n)].skip(1) =~= Seq::<char>::empty());
        assert(digits_val(Seq::<char>::empty(), acc * 10 + n) == acc * 10 + n);
        assert(digits_val(seq![hex_digit(n)], acc) == acc * 10 + n);
        assert(digits_val(dec_digits(n), acc) == acc * 10 + n);
    } else {
        let hd = dec_digits(n / 10);
        let l = hd.len() as nat;
        lemma_dec_digits_val(n / 10, acc);
        lemma_digit_char_val(n % 10);
        assert(dec_digits(n) =~= hd + seq![hex_digit(n % 10)]);
        lemma_digits_val_concat(hd, seq![hex_digit(n % 10)], acc);
        let x = digits_val(hd, acc);
        assert(seq![hex_digit(n % 10)].skip(1) =~= Seq::<char>::empty());
        assert(digits_val(Seq::<char>::empty(), x * 10 + n % 10) == x * 10 + n % 10);
        assert(digits_val(seq![hex_digit(n % 10)], x) == x * 10 + n % 10);
        assert(x == acc * vstd::arithmetic::power::pow(10, l) + n / 10);
        vstd::arithmetic::power::lemma_pow_adds(10, l, 1);
        assert((acc * vstd::arithmetic::power::pow(10, l) + n / 10) * 10 + n % 10 == acc * (
        vstd::arithmetic::power::pow(10, l) * 10) + n) by (nonlinear_arith)
            requires n >= 10 && (n / 10) * 10 + n % 10 == n;
        assert(vstd::arithmetic::power::pow(10, l) * vstd::arithmetic::power::pow(10, 1)
            == vstd::arithmetic::power::pow(10, l) * 10);
    }
}

/// A run of digit characters in the text folds as `digits_val` and
/// stops at the first non-digit.
proof fn lemma_sp_digits_run(t: Seq<char>, p: int, ds: Seq<char>, acc: int)
    requires
        0 <= p,
        p + ds.len() <= t.len(),
        t.subrange(p, p + ds.len()) =~= ds,
        forall|x: int| 0 <= x < ds.len() ==> is_digit(#[trigger] ds[x]),
        p + ds.len() == t.len() || !is_digit(t[p + ds.len()]),
    ensures
        sp_digits(t, p, acc) == (digits_val(ds, acc), p + ds.len()),
    decreases ds.len(),
{
    if ds.len() == 0 {
    } else {
        assert(t[p] == ds[0]) by {
            assert(t.subrange(p, p + ds.len())[0] == t[p]);
        }
        assert(t.subrange(p + 1, p + 1 + ds.skip(1).len()) =~= ds.skip(1)) by {
            assert forall|x: int| 0 <= x < ds.skip(1).len() implies t.subrange(
                p + 1,
                p + 1 + ds.skip(1).len(),
            )[x] == ds.skip(1)[x] by {
                assert(t[p + 1 + x] == t.subrange(p, p + ds.len())[x + 1]);
            }
        }
        assert forall|x: int| 0 <= x < ds.skip(1).len() implies is_digit(
            #[trigger] ds.skip(1)[x],
        ) by {
            assert(ds.skip(1)[x] == ds[x + 1]);
        }
        lemma_sp_digits_run(t, p + 1, ds.skip(1), acc * 10 + (ds[0] as int - '0' as int));
    }
}

/// A literal that differs at one visible position does not match.
proof fn lemma_lit_differs(t: Seq<char>, p: int, lit: Seq<char>, x: int)
    requires
        0 <= p,
        0 <= x < lit.len(),
        p + x < t.len(),
        t[p + x] != lit[x],
    ensures
        sp_lit(t, p, lit) is None,
{
    if p + lit.len() <= t.len() && t.subrange(p, p + lit.len()) == lit {
        assert(t.subrange(p, p + lit.len())[x] == t[p + x]);
    }
}

/// A written string array parses as its items.
proof fn lemma_sarr_at(t: Seq<char>, p: int, items: Seq<Seq<char>>, rest: Seq<char>)
    requires
        0 <= p <= t.len(),
        t =~= t.take(p) + sarr(items) + rest,
    ensures
        sp_sarr(t, p) == Some((items, p + sarr(items).len())),
{
    let qs = Seq::new(items.len(), |i: int| qstr(items[i]));
    assert(t[p] == '[');
    if items.len() == 0 {
        assert(joinc(qs) =~= Seq::<char>::empty());
        assert(t[p + 1] == ']');
        assert(items =~= Seq::<Seq<char>>::empty());
    } else {
        assert(joinc(qs).len() > 0 && joinc(qs)[0] == '"') by {
            assert(qs[0] == qstr(items[0]));
            if qs.len() == 1 {
                assert(joinc(qs) == qs[0]);
            } else {
                assert(joinc(qs) == qs[0] + seq![','] + joinc(qs.skip(1)));
                assert(joinc(qs)[0] == qs[0][0]);
            }
        }
        assert(t[p + 1] == '"');
        assert(p + 1 < t.len());
        assert(!(t[p + 1] == ']'));
        assert(t =~= t.take(p + 1) + joinc(qs) + seq![']'] + rest) by {
            assert(t.take(p + 1) =~= t.take(p) + seq!['[']);
        }
        lemma_sarr_items_at(t, p + 1, items, rest);
    }
}

/// The items of a written string array parse in order, through the
/// closing bracket.
proof fn lemma_sarr_items_at(t: Seq<char>, p: int, items: Seq<Seq<char>>, rest: Seq<char>)
    requires
        0 <= p <= t.len(),
        items.len() >= 1,
        t =~= t.take(p) + joinc(Seq::new(items.len(), |i: int| qstr(items[i]))) + seq![']']
            + rest,
    ensures
        sp_sarr_items(t, p) == Some(
            (items, p + joinc(Seq::new(items.len(), |i: int| qstr(items[i]))).len() + 1),
        ),
    decreases items.len(),
{
    let qs = Seq::new(items.len(), |i: int| qstr(items[i]));
    assert(qs[0] == qstr(items[0]));
    if items.len() == 1 {
        assert(joinc(qs) == qs[0]);
        lemma_qstr_at(t, p, items[0], seq![']'] + rest);
        let q = p + qstr(items[0]).len();
        assert(t[q] == ']');
        assert(sp_qstr(t, p) == Some((items[0], q)));
        crate::parse::lemma_sp_qstr_advances(t, p);
        assert(sp_sarr_items(t, p) == Some((seq![items[0]], q + 1)));
        assert(seq![items[0]] =~= items);
    } else {
        let tail = items.skip(1);
        let qs2 = Seq::new(tail.len(), |i: int| qstr(tail[i]));
        assert(qs.skip(1) =~= qs2) by {
            assert forall|i: int| 0 <= i < qs2.len() implies qs.skip(1)[i] == qs2[i] by {
                assert(qs.skip(1)[i] == qs[i + 1]);
                assert(tail[i] == items[i + 1]);
            }
        }
        assert(joinc(qs) == qs[0] + seq![','] + joinc(qs2));
        lemma_qstr_at(t, p, items[0], seq![','] + joinc(qs2) + seq![']'] + rest);
        let q = p + qstr(items[0]).len();
        assert(t[q] == ',');
        crate::parse::lemma_sp_qstr_advances(t, p);
        assert(t =~= t.take(q + 1) + joinc(qs2) + seq![']'] + rest) by {
            assert(t.take(q + 1) =~= t.take(p) + qstr(items[0]) + seq![',']);
        }
        lemma_sarr_items_at(t, q + 1, tail, rest);
        assert(sp_sarr_items(t, p) == Some(
            (seq![items[0]] + tail, q + 1 + joinc(qs2).len() + 1),
        ));
        assert(seq![items[0]] + tail =~= items);
    }
}

/// A written feature object parses as its pairs.
proof fn lemma_fobj_at(
    t: Seq<char>,
    p: int,
    m: Seq<(Seq<char>, Seq<Seq<char>>)>,
    rest: Seq<char>,
)
    requires
        0 <= p <= t.len(),
        t =~= t.take(p) + fobj(m) + rest,
    ensures
        sp_fobj(t, p) == Some((m, p + fobj(m).len())),
{
    let ps = Seq::new(m.len(), |i: int| qstr(m[i].0) + seq![':'] + sarr(m[i].1));
    assert(t[p] == '{');
    if m.len() == 0 {
        assert(joinc(ps) =~= Seq::<char>::empty());
        assert(t[p + 1] == '}');
        assert(m =~= Seq::<(Seq<char>, Seq<Seq<char>>)>::empty());
    } else {
        assert(joinc(ps).len() > 0 && joinc(ps)[0] == '"') by {
            assert(ps[0] == qstr(m[0].0) + seq![':'] + sarr(m[0].1));
            assert(ps[0][0] == '"');
            if ps.len() == 1 {
                assert(joinc(ps) == ps[0]);
            } else {
                assert(joinc(ps) == ps[0] + seq![','] + joinc(ps.skip(1)));
                assert(joinc(ps)[0] == ps[0][0]);
            }
        }
        assert(t[p + 1] == '"');
        assert(!(t[p + 1] == '}'));
        assert(t =~= t.take(p + 1) + joinc(ps) + seq!['}'] + rest) by {
            assert(t.take(p + 1) =~= t.take(p) + seq!['{']);
        }
        lemma_fobj_items_at(t, p + 1, m, rest);
    }
}

/// One written feature pair: its key string, the colon, its array.
proof fn lemma_fobj_pair_at(
    t: Seq<char>,
    p: int,
    key: Seq<char>,
    val: Seq<Seq<char>>,
    rest: Seq<char>,
)
    requires
        0 <= p <= t.len(),
        t =~= t.take(p) + qstr(key) + seq![':'] + sarr(val) + rest,
    ensures
        sp_qstr(t, p) == Some((key, p + qstr(key).len())),
        p + qstr(key).len() < t.len() && t[p + qstr(key).len()] == ':',
        sp_sarr(t, p + qstr(key).len() + 1) == Some(
            (val, p + qstr(key).len() + 1 + sarr(val).len()),
        ),
        p + qstr(key).len() + 1 + sarr(val).len() <= t.len(),
{
    lemma_qstr_at(t, p, key, seq![':'] + sarr(val) + rest);
    let q = p + qstr(key).len();
    assert(t[q] == ':');
    assert(t =~= t.take(q + 1) + sarr(val) + rest) by {
        assert(t.take(q + 1) =~= t.take(p) + qstr(key) + seq![':']);
    }
    lemma_sarr_at(t, q + 1, val, rest);
}

/// The pairs of a written feature object parse in order, through the
/// closing brace.
#[verifier::rlimit(100)]
proof fn lemma_fobj_items_at(
    t: Seq<char>,
    p: int,
    m: Seq<(Seq<char>, Seq<Seq<char>>)>,
    rest: Seq<char>,
)
    requires
        0 <= p <= t.len(),
        m.len() >= 1,
        t =~= t.take(p) + joinc(
            Seq::new(m.len(), |i: int| qstr(m[i].0) + seq![':'] + sarr(m[i].1)),
        ) + seq!['}'] + rest,
    ensures
        sp_fobj_items(t, p) == Some(
            (
                m,
                p + joinc(
                    Seq::new(m.len(), |i: int| qstr(m[i].0) + seq![':'] + sarr(m[i].1)),
                ).len() + 1,
            ),
        ),
    decreases m.len(),
{
    let ps = Seq::new(m.len(), |i: int| qstr(m[i].0) + seq![':'] + sarr(m[i].1));
    assert(ps[0] == qstr(m[0].0) + seq![':'] + sarr(m[0].1));
    if m.len() == 1 {
        assert(joinc(ps) == ps[0]);
        assert(t =~= t.take(p) + qstr(m[0].0) + seq![':'] + sarr(m[0].1) + (seq!['}'] + rest));
        lemma_fobj_pair_at(t, p, m[0].0, m[0].1, seq!['}'] + rest);
        let q = p + qstr(m[0].0).len();
        let w = q + 1 + sarr(m[0].1).len();
        assert(t[w] == '}');
        crate::parse::lemma_sp_qstr_advances(t, p);
        assert(sp_fobj_items(t, p) == Some((seq![(m[0].0, m[0].1)], w + 1)));
        assert(seq![(m[0].0, m[0].1)] =~= m);
    } else {
        let tail = m.skip(1);
        let ps2 = Seq::new(tail.len(), |i: int| qstr(tail[i].0) + seq![':'] + sarr(tail[i].1));
        assert(ps.skip(1) =~= ps2) by {
            assert forall|i: int| 0 <= i < ps2.len() implies ps.skip(1)[i] == ps2[i] by {
                assert(ps.skip(1)[i] == ps[i + 1]);
                assert(tail[i] == m[i + 1]);
            }
        }
        assert(joinc(ps) == ps[0] + seq![','] + joinc(ps2));
        assert(t =~= t.take(p) + qstr(m[0].0) + seq![':'] + sarr(m[0].1) + (seq![','] + joinc(
            ps2,
        ) + seq!['}'] + rest));
        lemma_fobj_pair_at(t, p, m[0].0, m[0].1, seq![','] + joinc(ps2) + seq!['}'] + rest);
        let q = p + qstr(m[0].0).len();
        let w = q + 1 + sarr(m[0].1).len();
        assert(t[w] == ',');
        crate::parse::lemma_sp_qstr_advances(t, p);
        assert(t =~= t.take(w + 1) + joinc(ps2) + seq!['}'] + rest) by {
            assert(t.take(w + 1) =~= t.take(p) + qstr(m[0].0) + seq![':'] + sarr(m[0].1)
                + seq![',']);
        }
        lemma_fobj_items_at(t, w + 1, tail, rest);
        assert(sp_fobj_items(t, p) == Some(
            (seq![(m[0].0, m[0].1)] + tail, w + 1 + joinc(ps2).len() + 1),
        ));
        assert(seq![(m[0].0, m[0].1)] + tail =~= m);
    }
}

/// A written dependency kind parses as itself.
proof fn lemma_kind_at(t: Seq<char>, p: int, k: DependencyKind, rest: Seq<char>)
    requires
        0 <= p <= t.len(),
        t =~= t.take(p) + kind_json(k) + rest,
    ensures
        sp_kind(t, p) == Some((k, p + kind_json(k).len())),
{
    reveal_strlit("\"dev\"");
    reveal_strlit("\"build\"");
    reveal_strlit("\"normal\"");
    match k {
        DependencyKind::Dev => {
            lemma_lit_at(t, p, "\"dev\""@, rest);
        },
        DependencyKind::Build => {
            assert(t[p + 1] == 'b');
            lemma_lit_differs(t, p, "\"dev\""@, 1);
            lemma_lit_at(t, p, "\"build\""@, rest);
        },
        DependencyKind::Normal => {
            assert(t[p + 1] == 'n');
            lemma_lit_differs(t, p, "\"dev\""@, 1);
            lemma_lit_differs(t, p, "\"build\""@, 1);
            lemma_lit_at(t, p, "\"normal\""@, rest);
        },
    }
}


/// Law: a written JSON string decodes back to exactly its value,
/// consuming exactly its own text.
pub proof fn lemma_qstr_round_trip(v: Seq<char>)
    ensures
        sp_qstr(qstr(v), 0) == Some((v, qstr(v).len() as int)),
{
    let t = qstr(v);
    assert(t =~= t.take(0) + qstr(v) + Seq::<char>::empty());
    lemma_qstr_at(t, 0, v, Seq::empty());
}

/// Law: a written boolean decodes back to exactly its value.
pub proof fn lemma_bool_round_trip(b: bool)
    ensures
        sp_bool(bool_json(b), 0) == Some((b, bool_json(b).len() as int)),
{
    let t = bool_json(b);
    assert(t =~= t.take(0) + bool_json(b) + Seq::<char>::empty());
    lemma_bool_at(t, 0, b, Seq::empty());
}

/// Law: a written number decodes back to exactly its value.
pub proof fn lemma_num_round_trip(n: u32)
    ensures
        sp_num(dec_digits(n as int), 0) == Some((n as int, dec_digits(n as int).len() as int)),
{
    let t = dec_digits(n as int);
    lemma_dec_digits_are_digits(n as int);
    assert(t.subrange(0, t.len() as int) =~= t);
    lemma_sp_digits_run(t, 0, t, 0);
    lemma_dec_digits_val(n as int, 0);
    assert(0 * vstd::arithmetic::power::pow(10, t.len() as nat) == 0) by (nonlinear_arith);
    assert(is_digit(t[0]));
}

/// Law: a written string array decodes back to exactly its items.
pub proof fn lemma_sarr_round_trip(items: Seq<Seq<char>>)
    ensures
        sp_sarr(sarr(items), 0) == Some((items, sarr(items).len() as int)),
{
    let t = sarr(items);
    assert(t =~= t.take(0) + sarr(items) + Seq::<char>::empty());
    lemma_sarr_at(t, 0, items, Seq::empty());
}

/// Law: a written feature object decodes back to exactly its pairs.
pub proof fn lemma_fobj_round_trip(m: Seq<(Seq<char>, Seq<Seq<char>>)>)
    ensures
        sp_fobj(fobj(m), 0) == Some((m, fobj(m).len() as int)),
{
    let t = fobj(m);
    assert(t =~= t.take(0) + fobj(m) + Seq::<char>::empty());
    lemma_fobj_at(t, 0, m, Seq::empty());
}

/// Law: a written dependency kind decodes back to exactly its value.
pub proof fn lemma_kind_round_trip(k: DependencyKind)
    ensures
        sp_kind(kind_json(k), 0) == Some((k, kind_json(k).len() as int)),
{
    let t = kind_json(k);
    assert(t =~= t.take(0) + kind_json(k) + Seq::<char>::empty());
    lemma_kind_at(t, 0, k, Seq::empty());
}

} // verus!
