//! Decoding one index record from its JSON line.
//!
//! The grammar accepted here is the output format of the writer in
//! `codec`: fixed field order, optional fields present or absent, the
//! writer's string escapes.  Each decoder is proved to behave exactly
//! as its spec-level counterpart, and the spec parsers are what the
//! round-trip argument is made of.

use vstd::prelude::*;
use crate::index_entry::{DepV, Dependency, DependencyKind, Root, RootV};
use crate::name::{valid_crate_name, CrateName};

verus! {

/// Value of a hexadecimal digit character, or -1.
pub open spec fn hex_val(c: char) -> int {
    if c == '0' { 0 } else if c == '1' { 1 } else if c == '2' { 2 } else if c == '3' { 3 }
    else if c == '4' { 4 } else if c == '5' { 5 } else if c == '6' { 6 } else if c == '7' { 7 }
    else if c == '8' { 8 } else if c == '9' { 9 } else if c == 'a' { 10 } else if c == 'b' { 11 }
    else if c == 'c' { 12 } else if c == 'd' { 13 } else if c == 'e' { 14 } else if c == 'f' { 15 }
    else { -1 }
}

/// The character a short escape stands for.
pub open spec fn unesc_short(e: char) -> char {
    if e == '"' { '"' } else if e == '\\' { '\\' } else if e == 'b' { '\u{8}' }
    else if e == 't' { '\u{9}' } else if e == 'n' { '\u{a}' } else if e == 'f' { '\u{c}' }
    else { '\u{d}' }
}

/// Expects the exact characters of `lit` at position `i`.
pub open spec fn sp_lit(t: Seq<char>, i: int, lit: Seq<char>) -> Option<int> {
    if 0 <= i && i + lit.len() <= t.len() && t.subrange(i, i + lit.len()) == lit {
        Some(i + lit.len())
    } else {
        None
    }
}

/// Parses the remainder of a JSON string, after its opening quote:
/// characters and escapes up to the closing quote.
pub open spec fn sp_str_body(t: Seq<char>, i: int) -> Option<(Seq<char>, int)>
    decreases t.len() - i,
{
    if i < 0 || i >= t.len() {
        None
    } else if t[i] == '"' {
        Some((Seq::empty(), i + 1))
    } else if t[i] == '\\' {
        if i + 1 >= t.len() {
            None
        } else {
            let e = t[i + 1];
            if e == '"' || e == '\\' || e == 'b' || e == 't' || e == 'n' || e == 'f' || e == 'r' {
                match sp_str_body(t, i + 2) {
                    None => None,
                    Some((v, j)) => Some((seq![unesc_short(e)] + v, j)),
                }
            } else if e == 'u' {
                if i + 5 >= t.len() {
                    None
                } else {
                    let h1 = hex_val(t[i + 4]);
                    let h2 = hex_val(t[i + 5]);
                    if t[i + 2] == '0' && t[i + 3] == '0' && h1 >= 0 && h2 >= 0
                        && h1 * 16 + h2 < 32 {
                        match sp_str_body(t, i + 6) {
                            None => None,
                            Some((v, j)) => Some((seq![((h1 * 16 + h2) as u32) as char] + v, j)),
                        }
                    } else {
                        None
                    }
                }
            } else {
                None
            }
        }
    } else {
        match sp_str_body(t, i + 1) {
            None => None,
            Some((v, j)) => Some((seq![t[i]] + v, j)),
        }
    }
}

/// Parses a JSON string, quotes included.
pub open spec fn sp_qstr(t: Seq<char>, i: int) -> Option<(Seq<char>, int)> {
    if 0 <= i && i < t.len() && t[i] == '"' {
        sp_str_body(t, i + 1)
    } else {
        None
    }
}

/// Parses `true` or `false`.
pub open spec fn sp_bool(t: Seq<char>, i: int) -> Option<(bool, int)> {
    match sp_lit(t, i, "true"@) {
        Some(j) => Some((true, j)),
        None => match sp_lit(t, i, "false"@) {
            Some(j) => Some((false, j)),
            None => None,
        },
    }
}

/// A decimal digit.
pub open spec fn is_digit(c: char) -> bool {
    '0' <= c && c <= '9'
}

/// Folds a run of digits into a value, starting from `acc`.
pub open spec fn sp_digits(t: Seq<char>, i: int, acc: int) -> (int, int)
    decreases t.len() - i,
{
    if i < 0 || i >= t.len() || !is_digit(t[i]) {
        (acc, i)
    } else {
        sp_digits(t, i + 1, acc * 10 + (t[i] as int - '0' as int))
    }
}

/// Parses a non-negative decimal number (at least one digit); the
/// value is mathematical, unbounded.
pub open spec fn sp_num(t: Seq<char>, i: int) -> Option<(int, int)> {
    if 0 <= i && i < t.len() && is_digit(t[i]) {
        Some(sp_digits(t, i, 0))
    } else {
        None
    }
}

/// Parsing a string body always moves past the closing quote.
pub proof fn lemma_sp_str_body_advances(t: Seq<char>, i: int)
    requires
        sp_str_body(t, i) is Some,
    ensures
        i < sp_str_body(t, i)->Some_0.1 <= t.len(),
    decreases t.len() - i,
{
    if i < 0 || i >= t.len() {
    } else if t[i] == '"' {
    } else if t[i] == '\\' {
        let e = t[i + 1];
        if e == '"' || e == '\\' || e == 'b' || e == 't' || e == 'n' || e == 'f' || e == 'r' {
            lemma_sp_str_body_advances(t, i + 2);
        } else if e == 'u' {
            lemma_sp_str_body_advances(t, i + 6);
        }
    } else {
        lemma_sp_str_body_advances(t, i + 1);
    }
}

/// Parsing a quoted string consumes at least its two quotes.
pub proof fn lemma_sp_qstr_advances(t: Seq<char>, i: int)
    requires
        sp_qstr(t, i) is Some,
    ensures
        i + 2 <= sp_qstr(t, i)->Some_0.1 <= t.len(),
{
    lemma_sp_str_body_advances(t, i + 1);
}

/// Items of a JSON array of strings: string (`,` string)* `]`, the
/// closing bracket consumed.
pub open spec fn sp_sarr_items(t: Seq<char>, i: int) -> Option<(Seq<Seq<char>>, int)>
    decreases t.len() - i,
{
    match sp_qstr(t, i) {
        None => None,
        Some((v, j)) => {
            if j <= i {
                None
            } else if 0 <= j && j < t.len() && t[j] == ',' {
                match sp_sarr_items(t, j + 1) {
                    None => None,
                    Some((vs, k)) => Some((seq![v] + vs, k)),
                }
            } else if 0 <= j && j < t.len() && t[j] == ']' {
                Some((seq![v], j + 1))
            } else {
                None
            }
        },
    }
}

/// A JSON array of strings, brackets included.
pub open spec fn sp_sarr(t: Seq<char>, i: int) -> Option<(Seq<Seq<char>>, int)> {
    if 0 <= i && i < t.len() && t[i] == '[' {
        if i + 1 < t.len() && t[i + 1] == ']' {
            Some((Seq::empty(), i + 2))
        } else {
            sp_sarr_items(t, i + 1)
        }
    } else {
        None
    }
}

/// Pairs of a feature object: string `:` array (`,` pair)* `}`, the
/// closing brace consumed.
pub open spec fn sp_fobj_items(t: Seq<char>, i: int) -> Option<
    (Seq<(Seq<char>, Seq<Seq<char>>)>, int),
>
    decreases t.len() - i,
{
    match sp_qstr(t, i) {
        None => None,
        Some((k, j)) => {
            if !(0 <= j && j < t.len() && t[j] == ':') {
                None
            } else {
                match sp_sarr(t, j + 1) {
                    None => None,
                    Some((v, m)) => {
                        if m <= i {
                            None
                        } else if 0 <= m && m < t.len() && t[m] == ',' {
                            match sp_fobj_items(t, m + 1) {
                                None => None,
                                Some((ps, e)) => Some((seq![(k, v)] + ps, e)),
                            }
                        } else if 0 <= m && m < t.len() && t[m] == '}' {
                            Some((seq![(k, v)], m + 1))
                        } else {
                            None
                        }
                    },
                }
            }
        },
    }
}

/// A feature object, braces included.
pub open spec fn sp_fobj(t: Seq<char>, i: int) -> Option<(Seq<(Seq<char>, Seq<Seq<char>>)>, int)> {
    if 0 <= i && i < t.len() && t[i] == '{' {
        if i + 1 < t.len() && t[i + 1] == '}' {
            Some((Seq::empty(), i + 2))
        } else {
            sp_fobj_items(t, i + 1)
        }
    } else {
        None
    }
}

/// A dependency kind string.
pub open spec fn sp_kind(t: Seq<char>, i: int) -> Option<(DependencyKind, int)> {
    match sp_lit(t, i, "\"dev\""@) {
        Some(j) => Some((DependencyKind::Dev, j)),
        None => match sp_lit(t, i, "\"build\""@) {
            Some(j) => Some((DependencyKind::Build, j)),
            None => match sp_lit(t, i, "\"normal\""@) {
                Some(j) => Some((DependencyKind::Normal, j)),
                None => None,
            },
        },
    }
}

/// An optional string field: `,"<name>":` followed by a string, or
/// nothing.  Returns the value (if present) and the next position.
pub open spec fn sp_opt_field(t: Seq<char>, i: int, lit: Seq<char>) -> Option<
    (Option<Seq<char>>, int),
> {
    match sp_lit(t, i, lit) {
        Some(j) => match sp_qstr(t, j) {
            None => None,
            Some((v, k)) => Some((Some(v), k)),
        },
        None => Some((None, i)),
    }
}

/// One dependency object.
pub open spec fn sp_dep(t: Seq<char>, i: int) -> Option<(DepV, int)> {
    match sp_lit(t, i, "{\"name\":"@) {
        None => None,
        Some(j1) => match sp_qstr(t, j1) {
            None => None,
            Some((name, j2)) => match sp_lit(t, j2, ",\"req\":"@) {
                None => None,
                Some(j3) => match sp_qstr(t, j3) {
                    None => None,
                    Some((req, j4)) => match sp_lit(t, j4, ",\"features\":"@) {
                        None => None,
                        Some(j5) => match sp_sarr(t, j5) {
                            None => None,
                            Some((features, j6)) => match sp_lit(t, j6, ",\"optional\":"@) {
                                None => None,
                                Some(j7) => match sp_bool(t, j7) {
                                    None => None,
                                    Some((optional, j8)) => match sp_lit(
                                        t,
                                        j8,
                                        ",\"default_features\":"@,
                                    ) {
                                        None => None,
                                        Some(j9) => match sp_bool(t, j9) {
                                            None => None,
                                            Some((default_features, j10)) => sp_dep_tail(
                                                t,
                                                j10,
                                                name,
                                                req,
                                                features,
                                                optional,
                                                default_features,
                                            ),
                                        },
                                    },
                                },
                            },
                        },
                    },
                },
            },
        },
    }
}

/// The tail of a dependency object: optional target, kind, optional
/// registry, optional package, closing brace.
pub open spec fn sp_dep_tail(
    t: Seq<char>,
    i: int,
    name: Seq<char>,
    req: Seq<char>,
    features: Seq<Seq<char>>,
    optional: bool,
    default_features: bool,
) -> Option<(DepV, int)> {
    match sp_opt_field(t, i, ",\"target\":"@) {
        None => None,
        Some((target, j1)) => match sp_lit(t, j1, ",\"kind\":"@) {
            None => None,
            Some(j2) => match sp_kind(t, j2) {
                None => None,
                Some((kind, j3)) => match sp_opt_field(t, j3, ",\"registry\":"@) {
                    None => None,
                    Some((registry, j4)) => match sp_opt_field(t, j4, ",\"package\":"@) {
                        None => None,
                        Some((package, j5)) => match sp_lit(t, j5, "}"@) {
                            None => None,
                            Some(j6) => Some(
                                (
                                    DepV {
                                        name,
                                        req,
                                        features,
                                        optional,
                                        default_features,
                                        target,
                                        kind,
                                        registry,
                                        package,
                                    },
                                    j6,
                                ),
                            ),
                        },
                    },
                },
            },
        },
    }
}

/// Items of the dependency array: object (`,` object)* `]`, the
/// closing bracket consumed.
pub open spec fn sp_dep_items(t: Seq<char>, i: int) -> Option<(Seq<DepV>, int)>
    decreases t.len() - i,
{
    match sp_dep(t, i) {
        None => None,
        Some((d, j)) => {
            if j <= i {
                None
            } else if 0 <= j && j < t.len() && t[j] == ',' {
                match sp_dep_items(t, j + 1) {
                    None => None,
                    Some((ds, k)) => Some((seq![d] + ds, k)),
                }
            } else if 0 <= j && j < t.len() && t[j] == ']' {
                Some((seq![d], j + 1))
            } else {
                None
            }
        },
    }
}

/// The dependency array, after `,"deps":[` and through `]`.
pub open spec fn sp_deps(t: Seq<char>, i: int) -> Option<(Seq<DepV>, int)> {
    if 0 <= i && i < t.len() && t[i] == ']' {
        Some((Seq::empty(), i + 1))
    } else {
        sp_dep_items(t, i)
    }
}

/// One full index record; must end exactly at the end of the line.
pub open spec fn sp_entry(t: Seq<char>) -> Option<RootV> {
    match sp_lit(t, 0, "{\"name\":"@) {
        None => None,
        Some(j1) => match sp_qstr(t, j1) {
            None => None,
            Some((name, j2)) => {
                if !valid_crate_name(name) {
                    None
                } else {
                    match sp_lit(t, j2, ",\"vers\":"@) {
                        None => None,
                        Some(j3) => match sp_qstr(t, j3) {
                            None => None,
                            Some((vers, j4)) => match sp_lit(t, j4, ",\"deps\":["@) {
                                None => None,
                                Some(j5) => match sp_deps(t, j5) {
                                    None => None,
                                    Some((deps, j6)) => match sp_lit(t, j6, ",\"cksum\":"@) {
                                        None => None,
                                        Some(j7) => match sp_qstr(t, j7) {
                                            None => None,
                                            Some((cksum, j8)) => sp_entry_tail(
                                                t,
                                                j8,
                                                name,
                                                vers,
                                                deps,
                                                cksum,
                                            ),
                                        },
                                    },
                                },
                            },
                        },
                    }
                }
            },
        },
    }
}

/// The tail of a record: features, yanked, optional links, schema
/// version, optional extended features, optional toolchain version.
pub open spec fn sp_entry_tail(
    t: Seq<char>,
    i: int,
    name: Seq<char>,
    vers: Seq<char>,
    deps: Seq<DepV>,
    cksum: Seq<char>,
) -> Option<RootV> {
    match sp_lit(t, i, ",\"features\":"@) {
        None => None,
        Some(j1) => match sp_fobj(t, j1) {
            None => None,
            Some((features, j2)) => match sp_lit(t, j2, ",\"yanked\":"@) {
                None => None,
                Some(j3) => match sp_bool(t, j3) {
                    None => None,
                    Some((yanked, j4)) => match sp_opt_field(t, j4, ",\"links\":"@) {
                        None => None,
                        Some((links, j5)) => match sp_lit(t, j5, ",\"v\":"@) {
                            None => None,
                            Some(j6) => match sp_num(t, j6) {
                                None => None,
                                Some((v, j7)) => {
                                    if !(0 <= v < 0x100000000) {
                                        None
                                    } else {
                                        sp_entry_tail2(
                                            t,
                                            j7,
                                            RootV {
                                                name,
                                                vers,
                                                deps,
                                                cksum,
                                                features,
                                                yanked,
                                                links,
                                                v: v as u32,
                                                features2: Seq::empty(),
                                                rust_version: None,
                                            },
                                        )
                                    }
                                },
                            },
                        },
                    },
                },
            },
        },
    }
}

/// The last fields of a record and the closing brace, which must end
/// the line.
pub open spec fn sp_entry_tail2(t: Seq<char>, i: int, e: RootV) -> Option<RootV> {
    let f2 = match sp_lit(t, i, ",\"features2\":"@) {
        Some(j) => match sp_fobj(t, j) {
            None => None,
            Some((features2, k)) => Some((features2, k)),
        },
        None => Some((Seq::empty(), i)),
    };
    match f2 {
        None => None,
        Some((features2, j1)) => match sp_opt_field(t, j1, ",\"rust_version\":"@) {
            None => None,
            Some((rust_version, j2)) => match sp_lit(t, j2, "}"@) {
                None => None,
                Some(j3) => {
                    if j3 == t.len() {
                        Some(RootV { features2, rust_version, ..e })
                    } else {
                        None
                    }
                },
            },
        },
    }
}

/// Value of a hexadecimal digit character, or -1, as `hex_val`.
fn hexv(c: char) -> (r: i32)
    ensures
        r as int == hex_val(c),
{
    if c == '0' { 0 } else if c == '1' { 1 } else if c == '2' { 2 } else if c == '3' { 3 }
    else if c == '4' { 4 } else if c == '5' { 5 } else if c == '6' { 6 } else if c == '7' { 7 }
    else if c == '8' { 8 } else if c == '9' { 9 } else if c == 'a' { 10 } else if c == 'b' { 11 }
    else if c == 'c' { 12 } else if c == 'd' { 13 } else if c == 'e' { 14 } else if c == 'f' { 15 }
    else { -1 }
}

/// Matches the literal `lit` at position `i`, exactly `sp_lit`.
fn p_lit(s: &str, i: usize, lit: &str) -> (r: Option<usize>)
    requires
        i <= s@.len(),
    ensures
        match r {
            Some(j) => sp_lit(s@, i as int, lit@) == Some(j as int) && i <= j <= s@.len(),
            None => sp_lit(s@, i as int, lit@) is None,
        },
{
    let n = s.unicode_len();
    let m = lit.unicode_len();
    if m > n - i {
        proof {
            assert(sp_lit(s@, i as int, lit@) is None);
        }
        return None;
    }
    let mut k: usize = 0;
    while k < m
        invariant
            n == s@.len(),
            m == lit@.len(),
            i + m <= n,
            0 <= k <= m,
            forall|x: int| 0 <= x < k ==> s@[i + x] == lit@[x],
        decreases m - k,
    {
        if s.get_char(i + k) != lit.get_char(k) {
            proof {
                assert(s@.subrange(i as int, i + m) != lit@) by {
                    assert(s@.subrange(i as int, i + m)[k as int] == s@[i + k]);
                }
            }
            return None;
        }
        k += 1;
    }
    proof {
        assert(s@.subrange(i as int, i + m) =~= lit@);
    }
    Some(i + m)
}

/// Decodes a string body up to its closing quote, exactly
/// `sp_str_body`.
fn p_str_body(s: &str, i0: usize) -> (r: Option<(String, usize)>)
    requires
        i0 <= s@.len(),
    ensures
        match r {
            Some((v, j)) => sp_str_body(s@, i0 as int) == Some((v@, j as int)) && i0 < j
                <= s@.len(),
            None => sp_str_body(s@, i0 as int) is None,
        },
{
    let n = s.unicode_len();
    let mut acc = String::new();
    let mut i: usize = i0;
    loop
        invariant
            n == s@.len(),
            i0 <= i <= n,
            match sp_str_body(s@, i as int) {
                Some((v, j)) => sp_str_body(s@, i0 as int) == Some((acc@ + v, j)),
                None => sp_str_body(s@, i0 as int) is None,
            },
        decreases n - i,
    {
        if i >= n {
            return None;
        }
        let c = s.get_char(i);
        if c == '"' {
            proof {
                assert(sp_str_body(s@, i as int) == Some((Seq::<char>::empty(), i + 1)));
                assert(acc@ + Seq::<char>::empty() =~= acc@);
                lemma_sp_str_body_advances(s@, i0 as int);
            }
            return Some((acc, i + 1));
        } else if c == '\\' {
            if i + 1 >= n {
                return None;
            }
            let e = s.get_char(i + 1);
            if e == '"' || e == '\\' || e == 'b' || e == 't' || e == 'n' || e == 'f' || e == 'r' {
                let c2: char = if e == '"' { '"' } else if e == '\\' { '\\' }
                    else if e == 'b' { '\u{8}' } else if e == 't' { '\u{9}' }
                    else if e == 'n' { '\u{a}' } else if e == 'f' { '\u{c}' }
                    else { '\u{d}' };
                let ghost a0 = acc@;
                crate::codec::char_push(&mut acc, c2);
                proof {
                    assert(c2 == unesc_short(e));
                    lemma_str_body_step(s@, i0 as int, i as int, a0, c2, i + 2);
                }
                i += 2;
            } else if e == 'u' {
                if n - i <= 5 {
                    return None;
                }
                let d1 = s.get_char(i + 2);
                let d2 = s.get_char(i + 3);
                let h1 = hexv(s.get_char(i + 4));
                let h2 = hexv(s.get_char(i + 5));
                if d1 == '0' && d2 == '0' && h1 >= 0 && h2 >= 0 && h1 * 16 + h2 < 32 {
                    let v: i32 = h1 * 16 + h2;
                    let c2: char = (v as u8) as char;
                    let ghost a0 = acc@;
                    crate::codec::char_push(&mut acc, c2);
                    proof {
                        assert(v < 32);
                        assert(v as u8 == v as int);
                        assert(v as u32 == v as int);
                        assert(c2 == ((h1 * 16 + h2) as u32) as char);
                        lemma_str_body_step(s@, i0 as int, i as int, a0, c2, i + 6);
                    }
                    i += 6;
                } else {
                    return None;
                }
            } else {
                return None;
            }
        } else {
            let ghost a0 = acc@;
            crate::codec::char_push(&mut acc, c);
            proof {
                lemma_str_body_step(s@, i0 as int, i as int, a0, c, i + 1);
            }
            i += 1;
        }
    }
}

/// One step of the accumulator argument for `p_str_body`: if the body
/// at `i` decodes one character `c` and continues at `k`, the parse
/// from `i0` extends its accumulated value by `c`.
proof fn lemma_str_body_step(t: Seq<char>, i0: int, i: int, a0: Seq<char>, c: char, k: int)
    requires
        match sp_str_body(t, i) {
            Some((v, j)) => sp_str_body(t, i0) == Some((a0 + v, j)),
            None => sp_str_body(t, i0) is None,
        },
        sp_str_body(t, i) == (match sp_str_body(t, k) {
            None => None::<(Seq<char>, int)>,
            Some((v, j)) => Some((seq![c] + v, j)),
        }),
    ensures
        match sp_str_body(t, k) {
            Some((v, j)) => sp_str_body(t, i0) == Some(((a0 + seq![c]) + v, j)),
            None => sp_str_body(t, i0) is None,
        },
{
    match sp_str_body(t, k) {
        Some((v, j)) => {
            assert(sp_str_body(t, i) == Some((seq![c] + v, j)));
            assert(a0 + (seq![c] + v) =~= (a0 + seq![c]) + v);
        },
        None => {},
    }
}

/// Decodes a quoted string, exactly `sp_qstr`.
fn p_qstr(s: &str, i: usize) -> (r: Option<(String, usize)>)
    requires
        i <= s@.len(),
    ensures
        match r {
            Some((v, j)) => sp_qstr(s@, i as int) == Some((v@, j as int)) && i + 2 <= j
                <= s@.len(),
            None => sp_qstr(s@, i as int) is None,
        },
{
    let n = s.unicode_len();
    if i >= n {
        return None;
    }
    if s.get_char(i) != '"' {
        return None;
    }
    match p_str_body(s, i + 1) {
        None => None,
        Some((v, j)) => {
            proof {
                lemma_sp_qstr_advances(s@, i as int);
            }
            Some((v, j))
        },
    }
}

/// Decodes `true` or `false`, exactly `sp_bool`.
fn p_bool(s: &str, i: usize) -> (r: Option<(bool, usize)>)
    requires
        i <= s@.len(),
    ensures
        match r {
            Some((b, j)) => sp_bool(s@, i as int) == Some((b, j as int)) && i <= j <= s@.len(),
            None => sp_bool(s@, i as int) is None,
        },
{
    match p_lit(s, i, "true") {
        Some(j) => Some((true, j)),
        None => match p_lit(s, i, "false") {
            Some(j) => Some((false, j)),
            None => None,
        },
    }
}

/// Decodes a decimal number that must fit in 32 bits: exactly
/// `sp_num`, with any larger value rejected.
fn p_u32(s: &str, i: usize) -> (r: Option<(u32, usize)>)
    requires
        i <= s@.len(),
    ensures
        match sp_num(s@, i as int) {
            None => r is None,
            Some((v, j)) => {
                if 0 <= v < 0x100000000 {
                    r == Some((v as u32, j as usize)) && i < j <= s@.len()
                } else {
                    r is None
                }
            },
        },
{
    let n = s.unicode_len();
    if i >= n {
        return None;
    }
    let c0 = s.get_char(i);
    if !('0' <= c0 && c0 <= '9') {
        return None;
    }
    let mut k: usize = i;
    while k < n && digit_at(s, k)
        invariant
            n == s@.len(),
            i <= k <= n,
            forall|m: int| i <= m < k ==> is_digit(#[trigger] s@[m]),
        decreases n - k,
    {
        k += 1;
    }
    let mut acc: u64 = 0;
    let mut big: bool = false;
    let mut m: usize = i;
    while m < k
        invariant
            n == s@.len(),
            i <= m <= k <= n,
            forall|x: int| i <= x < k ==> is_digit(#[trigger] s@[x]),
            big <==> sp_digits_acc(s@, i as int, m as int) >= 0x100000000,
            !big ==> acc == sp_digits_acc(s@, i as int, m as int),
            acc < 0x100000000,
        decreases k - m,
    {
        let c = s.get_char(m);
        let d: u64 = (c as u32 as u64) - ('0' as u32 as u64);
        proof {
            assert(is_digit(s@[m as int]));
            assert(d == s@[m as int] as int - '0' as int);
            assert(d < 10);
        }
        let ghost a = sp_digits_acc(s@, i as int, m as int);
        if big {
            proof {
                assert(a * 10 + d as int >= 0x100000000) by (nonlinear_arith)
                    requires a >= 0x100000000 && d >= 0;
            }
        } else {
            let next: u64 = acc * 10 + d;
            if next >= 0x100000000 {
                big = true;
            } else {
                acc = next;
            }
        }
        m += 1;
    }
    proof {
        lemma_digits_run(s@, i as int, i as int, k as int);
        assert(sp_num(s@, i as int) == Some((sp_digits_acc(s@, i as int, k as int), k as int)));
    }
    if big {
        return None;
    }
    Some((acc as u32, k))
}

/// Whether the character at `k` is a decimal digit.
fn digit_at(s: &str, k: usize) -> (r: bool)
    requires
        k < s@.len(),
    ensures
        r == is_digit(s@[k as int]),
{
    let c = s.get_char(k);
    '0' <= c && c <= '9'
}

/// Folding a known digit run: from any point inside it, the fold ends
/// at its boundary with the accumulated value.
proof fn lemma_digits_run(t: Seq<char>, i: int, m: int, k: int)
    requires
        0 <= i <= m <= k <= t.len(),
        forall|x: int| i <= x < k ==> is_digit(#[trigger] t[x]),
        k == t.len() || !is_digit(t[k]),
    ensures
        sp_digits(t, m, sp_digits_acc(t, i, m)) == (sp_digits_acc(t, i, k), k),
    decreases k - m,
{
    if m < k {
        assert(sp_digits_acc(t, i, m + 1) == sp_digits_acc(t, i, m) * 10 + (t[m] as int
            - '0' as int));
        lemma_digits_run(t, i, m + 1, k);
    }
}

/// The value accumulated by `sp_digits` over `t[i..k]`.
pub open spec fn sp_digits_acc(t: Seq<char>, i: int, k: int) -> int
    decreases k - i,
{
    if k <= i {
        0
    } else {
        sp_digits_acc(t, i, k - 1) * 10 + (t[k - 1] as int - '0' as int)
    }
}


/// Decodes the items of a string array, exactly `sp_sarr_items`.
fn p_sarr_items(s: &str, i: usize) -> (r: Option<(Vec<String>, usize)>)
    requires
        i <= s@.len(),
    ensures
        match r {
            Some((vs, k)) => sp_sarr_items(s@, i as int) == Some((vs.deep_view(), k as int))
                && i < k <= s@.len(),
            None => sp_sarr_items(s@, i as int) is None,
        },
    decreases s@.len() - i,
{
    let n = s.unicode_len();
    match p_qstr(s, i) {
        None => None,
        Some((v, j)) => {
            if j >= n {
                return None;
            }
            let c = s.get_char(j);
            if c == ',' {
                match p_sarr_items(s, j + 1) {
                    None => None,
                    Some((mut vs, k)) => {
                        let ghost tailv = vs.deep_view();
                        vs.insert(0, v);
                        proof {
                            assert(vs.deep_view() =~= seq![v@] + tailv);
                        }
                        Some((vs, k))
                    },
                }
            } else if c == ']' {
                let mut vs: Vec<String> = Vec::new();
                vs.push(v);
                proof {
                    assert(vs.deep_view() =~= seq![v@]);
                }
                Some((vs, j + 1))
            } else {
                None
            }
        },
    }
}

/// Decodes a string array, exactly `sp_sarr`.
fn p_sarr(s: &str, i: usize) -> (r: Option<(Vec<String>, usize)>)
    requires
        i <= s@.len(),
    ensures
        match r {
            Some((vs, k)) => sp_sarr(s@, i as int) == Some((vs.deep_view(), k as int)) && i < k
                <= s@.len(),
            None => sp_sarr(s@, i as int) is None,
        },
{
    let n = s.unicode_len();
    if i >= n {
        return None;
    }
    if s.get_char(i) != '[' {
        return None;
    }
    if i + 1 < n && s.get_char(i + 1) == ']' {
        let vs: Vec<String> = Vec::new();
        proof {
            assert(vs.deep_view() =~= Seq::<Seq<char>>::empty());
        }
        return Some((vs, i + 2));
    }
    p_sarr_items(s, i + 1)
}

/// Decodes the pairs of a feature object, exactly `sp_fobj_items`.
fn p_fobj_items(s: &str, i: usize) -> (r: Option<(Vec<(String, Vec<String>)>, usize)>)
    requires
        i <= s@.len(),
    ensures
        match r {
            Some((ps, k)) => sp_fobj_items(s@, i as int) == Some(
                (crate::index_entry::fmap_view(ps@), k as int),
            ) && i < k <= s@.len(),
            None => sp_fobj_items(s@, i as int) is None,
        },
    decreases s@.len() - i,
{
    let n = s.unicode_len();
    match p_qstr(s, i) {
        None => None,
        Some((key, j)) => {
            if j >= n {
                return None;
            }
            if s.get_char(j) != ':' {
                return None;
            }
            match p_sarr(s, j + 1) {
                None => None,
                Some((v, m)) => {
                    if m >= n {
                        return None;
                    }
                    let c = s.get_char(m);
                    if c == ',' {
                        match p_fobj_items(s, m + 1) {
                            None => None,
                            Some((mut ps, e)) => {
                                let ghost tailv = crate::index_entry::fmap_view(ps@);
                                let ghost kv = key@;
                                let ghost vv = v.deep_view();
                                ps.insert(0, (key, v));
                                proof {
                                    assert(crate::index_entry::fmap_view(ps@) =~= seq![(kv, vv)]
                                        + tailv);
                                }
                                Some((ps, e))
                            },
                        }
                    } else if c == '}' {
                        let ghost kv = key@;
                        let ghost vv = v.deep_view();
                        let mut ps: Vec<(String, Vec<String>)> = Vec::new();
                        ps.push((key, v));
                        proof {
                            assert(crate::index_entry::fmap_view(ps@) =~= seq![(kv, vv)]);
                        }
                        Some((ps, m + 1))
                    } else {
                        None
                    }
                },
            }
        },
    }
}

/// Decodes a feature object, exactly `sp_fobj`.
fn p_fobj(s: &str, i: usize) -> (r: Option<(Vec<(String, Vec<String>)>, usize)>)
    requires
        i <= s@.len(),
    ensures
        match r {
            Some((ps, k)) => sp_fobj(s@, i as int) == Some(
                (crate::index_entry::fmap_view(ps@), k as int),
            ) && i < k <= s@.len(),
            None => sp_fobj(s@, i as int) is None,
        },
{
    let n = s.unicode_len();
    if i >= n {
        return None;
    }
    if s.get_char(i) != '{' {
        return None;
    }
    if i + 1 < n && s.get_char(i + 1) == '}' {
        let ps: Vec<(String, Vec<String>)> = Vec::new();
        proof {
            assert(crate::index_entry::fmap_view(ps@)
                =~= Seq::<(Seq<char>, Seq<Seq<char>>)>::empty());
        }
        return Some((ps, i + 2));
    }
    p_fobj_items(s, i + 1)
}

/// Decodes a dependency kind, exactly `sp_kind`.
fn p_kind(s: &str, i: usize) -> (r: Option<(DependencyKind, usize)>)
    requires
        i <= s@.len(),
    ensures
        match r {
            Some((k, j)) => sp_kind(s@, i as int) == Some((k, j as int)) && i <= j <= s@.len(),
            None => sp_kind(s@, i as int) is None,
        },
{
    match p_lit(s, i, "\"dev\"") {
        Some(j) => Some((DependencyKind::Dev, j)),
        None => match p_lit(s, i, "\"build\"") {
            Some(j) => Some((DependencyKind::Build, j)),
            None => match p_lit(s, i, "\"normal\"") {
                Some(j) => Some((DependencyKind::Normal, j)),
                None => None,
            },
        },
    }
}

/// Decodes an optional string field, exactly `sp_opt_field`.
fn p_opt_field(s: &str, i: usize, lit: &str) -> (r: Option<(Option<String>, usize)>)
    requires
        i <= s@.len(),
    ensures
        match r {
            Some((v, j)) => sp_opt_field(s@, i as int, lit@) == Some(
                (crate::index_entry::opt_view(v), j as int),
            ) && i <= j <= s@.len(),
            None => sp_opt_field(s@, i as int, lit@) is None,
        },
{
    match p_lit(s, i, lit) {
        Some(j) => match p_qstr(s, j) {
            None => None,
            Some((v, k)) => Some((Some(v), k)),
        },
        None => Some((None, i)),
    }
}

/// Decodes one dependency object, exactly `sp_dep`.
#[verifier::rlimit(100)]
fn p_dep(s: &str, i: usize) -> (r: Option<(Dependency, usize)>)
    requires
        i <= s@.len(),
    ensures
        match r {
            Some((d, j)) => sp_dep(s@, i as int) == Some((d@, j as int)) && i < j <= s@.len(),
            None => sp_dep(s@, i as int) is None,
        },
{
    let j1 = match p_lit(s, i, "{\"name\":") {
        Some(j) => j,
        None => { return None; },
    };
    let (name, j2) = match p_qstr(s, j1) {
        Some(x) => x,
        None => { return None; },
    };
    let j3 = match p_lit(s, j2, ",\"req\":") {
        Some(j) => j,
        None => { return None; },
    };
    let (req, j4) = match p_qstr(s, j3) {
        Some(x) => x,
        None => { return None; },
    };
    let j5 = match p_lit(s, j4, ",\"features\":") {
        Some(j) => j,
        None => { return None; },
    };
    let (features, j6) = match p_sarr(s, j5) {
        Some(x) => x,
        None => { return None; },
    };
    let j7 = match p_lit(s, j6, ",\"optional\":") {
        Some(j) => j,
        None => { return None; },
    };
    let (optional, j8) = match p_bool(s, j7) {
        Some(x) => x,
        None => { return None; },
    };
    let j9 = match p_lit(s, j8, ",\"default_features\":") {
        Some(j) => j,
        None => { return None; },
    };
    let (default_features, j10) = match p_bool(s, j9) {
        Some(x) => x,
        None => { return None; },
    };
    let (target, j11) = match p_opt_field(s, j10, ",\"target\":") {
        Some(x) => x,
        None => { return None; },
    };
    let j12 = match p_lit(s, j11, ",\"kind\":") {
        Some(j) => j,
        None => { return None; },
    };
    let (kind, j13) = match p_kind(s, j12) {
        Some(x) => x,
        None => { return None; },
    };
    let (registry, j14) = match p_opt_field(s, j13, ",\"registry\":") {
        Some(x) => x,
        None => { return None; },
    };
    let (package, j15) = match p_opt_field(s, j14, ",\"package\":") {
        Some(x) => x,
        None => { return None; },
    };
    let j16 = match p_lit(s, j15, "}") {
        Some(j) => j,
        None => { return None; },
    };
    let d = Dependency { name, req, features, optional, default_features, target, kind, registry,
        package };
    Some((d, j16))
}

/// Decodes the items of the dependency array, exactly `sp_dep_items`.
fn p_dep_items(s: &str, i: usize) -> (r: Option<(Vec<Dependency>, usize)>)
    requires
        i <= s@.len(),
    ensures
        match r {
            Some((ds, k)) => sp_dep_items(s@, i as int) == Some((ds.deep_view(), k as int))
                && i < k <= s@.len(),
            None => sp_dep_items(s@, i as int) is None,
        },
    decreases s@.len() - i,
{
    let n = s.unicode_len();
    match p_dep(s, i) {
        None => None,
        Some((d, j)) => {
            if j >= n {
                return None;
            }
            let c = s.get_char(j);
            if c == ',' {
                match p_dep_items(s, j + 1) {
                    None => None,
                    Some((mut ds, k)) => {
                        let ghost tailv = ds.deep_view();
                        let ghost dv = d@;
                        ds.insert(0, d);
                        proof {
                            assert(ds.deep_view() =~= seq![dv] + tailv);
                        }
                        Some((ds, k))
                    },
                }
            } else if c == ']' {
                let ghost dv = d@;
                let mut ds: Vec<Dependency> = Vec::new();
                ds.push(d);
                proof {
                    assert(ds.deep_view() =~= seq![dv]);
                }
                Some((ds, j + 1))
            } else {
                None
            }
        },
    }
}

/// Decodes the dependency array (after its opening bracket), exactly
/// `sp_deps`.
fn p_deps(s: &str, i: usize) -> (r: Option<(Vec<Dependency>, usize)>)
    requires
        i <= s@.len(),
    ensures
        match r {
            Some((ds, k)) => sp_deps(s@, i as int) == Some((ds.deep_view(), k as int)) && i < k
                <= s@.len(),
            None => sp_deps(s@, i as int) is None,
        },
{
    let n = s.unicode_len();
    if i < n && s.get_char(i) == ']' {
        let ds: Vec<Dependency> = Vec::new();
        proof {
            assert(ds.deep_view() =~= Seq::<DepV>::empty());
        }
        return Some((ds, i + 1));
    }
    p_dep_items(s, i)
}

/// Decodes one full index record from one line, exactly `sp_entry`.
pub fn parse_entry(s: &str) -> (r: Option<Root>)
    ensures
        match r {
            Some(e) => sp_entry(s@) == Some(e@),
            None => sp_entry(s@) is None,
        },
{
    let j1 = match p_lit(s, 0, "{\"name\":") {
        Some(j) => j,
        None => { return None; },
    };
    let (name_s, j2) = match p_qstr(s, j1) {
        Some(x) => x,
        None => { return None; },
    };
    let name = match CrateName::try_from(name_s.as_str()) {
        Ok(n) => n,
        Err(_) => { return None; },
    };
    let j3 = match p_lit(s, j2, ",\"vers\":") {
        Some(j) => j,
        None => { return None; },
    };
    let (vers, j4) = match p_qstr(s, j3) {
        Some(x) => x,
        None => { return None; },
    };
    let j5 = match p_lit(s, j4, ",\"deps\":[") {
        Some(j) => j,
        None => { return None; },
    };
    let (deps, j6) = match p_deps(s, j5) {
        Some(x) => x,
        None => { return None; },
    };
    let j7 = match p_lit(s, j6, ",\"cksum\":") {
        Some(j) => j,
        None => { return None; },
    };
    let (cksum, j8) = match p_qstr(s, j7) {
        Some(x) => x,
        None => { return None; },
    };
    p_entry_tail(s, j8, name, vers, deps, cksum)
}

/// Decodes the middle fields of a record, exactly `sp_entry_tail`.
fn p_entry_tail(
    s: &str,
    i: usize,
    name: CrateName,
    vers: String,
    deps: Vec<Dependency>,
    cksum: String,
) -> (r: Option<Root>)
    requires
        i <= s@.len(),
    ensures
        match r {
            Some(e) => sp_entry_tail(s@, i as int, name@, vers@, deps.deep_view(), cksum@)
                == Some(e@),
            None => sp_entry_tail(s@, i as int, name@, vers@, deps.deep_view(), cksum@) is None,
        },
{
    let j1 = match p_lit(s, i, ",\"features\":") {
        Some(j) => j,
        None => { return None; },
    };
    let (features, j2) = match p_fobj(s, j1) {
        Some(x) => x,
        None => { return None; },
    };
    let j3 = match p_lit(s, j2, ",\"yanked\":") {
        Some(j) => j,
        None => { return None; },
    };
    let (yanked, j4) = match p_bool(s, j3) {
        Some(x) => x,
        None => { return None; },
    };
    let (links, j5) = match p_opt_field(s, j4, ",\"links\":") {
        Some(x) => x,
        None => { return None; },
    };
    let j6 = match p_lit(s, j5, ",\"v\":") {
        Some(j) => j,
        None => { return None; },
    };
    let (v, j7) = match p_u32(s, j6) {
        Some(x) => x,
        None => { return None; },
    };
    let n = s.unicode_len();
    let r = p_entry_tail2(s, j7, name, vers, deps, cksum, features, yanked, links, v);
    proof {
        let t = s@;
        assert(t.len() == n as int);
        assert(sp_lit(t, i as int, ",\"features\":"@) == Some(j1 as int));
        assert(sp_fobj(t, j1 as int) == Some((crate::index_entry::fmap_view(features@), j2 as int)));
        assert(sp_lit(t, j2 as int, ",\"yanked\":"@) == Some(j3 as int));
        assert(sp_bool(t, j3 as int) == Some((yanked, j4 as int)));
        assert(sp_opt_field(t, j4 as int, ",\"links\":"@) == Some((crate::index_entry::opt_view(links), j5 as int)));
        assert(sp_lit(t, j5 as int, ",\"v\":"@) == Some(j6 as int));
        assert(sp_num(t, j6 as int) is Some);
        match sp_num(s@, j6 as int) {
            Some((sv, sj)) => {
                assert(v == sv as u32);
                assert(0 <= sv < 0x100000000);
                assert(j7 == sj);
                assert(sp_entry_tail(t, i as int, name@, vers@, deps.deep_view(), cksum@)
                    == sp_entry_tail2(t, sj, RootV {
                        name: name@,
                        vers: vers@,
                        deps: deps.deep_view(),
                        cksum: cksum@,
                        features: crate::index_entry::fmap_view(features@),
                        yanked: yanked,
                        links: crate::index_entry::opt_view(links),
                        v: sv as u32,
                        features2: Seq::empty(),
                        rust_version: None,
                    }));
                assert(RootV {
                    name: name@,
                    vers: vers@,
                    deps: deps.deep_view(),
                    cksum: cksum@,
                    features: crate::index_entry::fmap_view(features@),
                    yanked: yanked,
                    links: crate::index_entry::opt_view(links),
                    v: v,
                    features2: Seq::empty(),
                    rust_version: None,
                } =~~= RootV {
                    name: name@,
                    vers: vers@,
                    deps: deps.deep_view(),
                    cksum: cksum@,
                    features: crate::index_entry::fmap_view(features@),
                    yanked: yanked,
                    links: crate::index_entry::opt_view(links),
                    v: sv as u32,
                    features2: Seq::empty(),
                    rust_version: None,
                });
            },
            None => {},
        }
    }
    r
}

/// Decodes the last fields of a record and the closing brace, exactly
/// `sp_entry_tail2`.
fn p_entry_tail2(
    s: &str,
    i: usize,
    name: CrateName,
    vers: String,
    deps: Vec<Dependency>,
    cksum: String,
    features: Vec<(String, Vec<String>)>,
    yanked: bool,
    links: Option<String>,
    v: u32,
) -> (r: Option<Root>)
    requires
        i <= s@.len(),
    ensures
        match r {
            Some(e) => sp_entry_tail2(
                s@,
                i as int,
                RootV {
                    name: name@,
                    vers: vers@,
                    deps: deps.deep_view(),
                    cksum: cksum@,
                    features: crate::index_entry::fmap_view(features@),
                    yanked: yanked,
                    links: crate::index_entry::opt_view(links),
                    v: v,
                    features2: Seq::empty(),
                    rust_version: None,
                },
            ) == Some(e@),
            None => sp_entry_tail2(
                s@,
                i as int,
                RootV {
                    name: name@,
                    vers: vers@,
                    deps: deps.deep_view(),
                    cksum: cksum@,
                    features: crate::index_entry::fmap_view(features@),
                    yanked: yanked,
                    links: crate::index_entry::opt_view(links),
                    v: v,
                    features2: Seq::empty(),
                    rust_version: None,
                },
            ) is None,
        },
{
    let (features2, j1) = match p_lit(s, i, ",\"features2\":") {
        Some(j) => {
            match p_fobj(s, j) {
                Some(x) => x,
                None => { return None; },
            }
        },
        None => (Vec::new(), i),
    };
    proof {
        assert(crate::index_entry::fmap_view(Seq::<(String, Vec<String>)>::empty())
            =~= Seq::<(Seq<char>, Seq<Seq<char>>)>::empty());
    }
    let (rust_version, j2) = match p_opt_field(s, j1, ",\"rust_version\":") {
        Some(x) => x,
        None => { return None; },
    };
    let j3 = match p_lit(s, j2, "}") {
        Some(j) => j,
        None => { return None; },
    };
    let n = s.unicode_len();
    if j3 != n {
        return None;
    }
    let e = Root { name, vers, deps, cksum, features, yanked, links, v, features2, rust_version };
    Some(e)
}

} // verus!
