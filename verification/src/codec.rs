//! The index record wire format.
//!
//! One record is one JSON object on one line.  The exact bytes are
//! load-bearing: package-manager clients fetch these files directly, so
//! the format is fixed here as spec functions, and the writer is proved
//! to produce exactly that text.  Fields appear in a fixed order;
//! absent optional fields are omitted; strings escape `"`, `\` and
//! control characters; the extended-feature map is omitted when empty.

use vstd::prelude::*;
use crate::index_entry::{DepV, Dependency, DependencyKind, Root, RootV};

verus! {

/// The sixteen hexadecimal digit characters, lower case.
pub open spec fn hex_digit(d: int) -> char {
    if d == 0 { '0' } else if d == 1 { '1' } else if d == 2 { '2' } else if d == 3 { '3' }
    else if d == 4 { '4' } else if d == 5 { '5' } else if d == 6 { '6' } else if d == 7 { '7' }
    else if d == 8 { '8' } else if d == 9 { '9' } else if d == 10 { 'a' } else if d == 11 { 'b' }
    else if d == 12 { 'c' } else if d == 13 { 'd' } else if d == 14 { 'e' } else { 'f' }
}

/// How one character is written inside a JSON string: quote and
/// backslash get a backslash escape, the named control characters get
/// their short escapes, other control characters get `\u00XX`, and
/// everything else stands as itself.
pub open spec fn esc_char(c: char) -> Seq<char> {
    if c == '"' { seq!['\\', '"'] }
    else if c == '\\' { seq!['\\', '\\'] }
    else if c == '\u{8}' { seq!['\\', 'b'] }
    else if c == '\u{9}' { seq!['\\', 't'] }
    else if c == '\u{a}' { seq!['\\', 'n'] }
    else if c == '\u{c}' { seq!['\\', 'f'] }
    else if c == '\u{d}' { seq!['\\', 'r'] }
    else if (c as u32) < 32 {
        seq!['\\', 'u', '0', '0', hex_digit((c as u32 / 16) as int), hex_digit((c as u32 % 16) as int)]
    } else {
        seq![c]
    }
}

/// A string's characters, escaped.
pub open spec fn escape(s: Seq<char>) -> Seq<char>
    decreases s.len(),
{
    if s.len() == 0 {
        Seq::empty()
    } else {
        esc_char(s[0]) + escape(s.skip(1))
    }
}

/// A JSON string: quote, escaped characters, quote.
pub open spec fn qstr(s: Seq<char>) -> Seq<char> {
    seq!['"'] + escape(s) + seq!['"']
}

/// A JSON boolean.
pub open spec fn bool_json(b: bool) -> Seq<char> {
    if b { "true"@ } else { "false"@ }
}

/// The decimal digits of a non-negative integer.
pub open spec fn dec_digits(n: int) -> Seq<char>
    decreases n,
{
    if n < 10 {
        seq![hex_digit(n)]
    } else {
        dec_digits(n / 10) + seq![hex_digit(n % 10)]
    }
}

/// Pieces joined with commas.
pub open spec fn joinc(pieces: Seq<Seq<char>>) -> Seq<char>
    decreases pieces.len(),
{
    if pieces.len() == 0 {
        Seq::empty()
    } else if pieces.len() == 1 {
        pieces[0]
    } else {
        pieces[0] + seq![','] + joinc(pieces.skip(1))
    }
}

/// A JSON array of strings.
pub open spec fn sarr(items: Seq<Seq<char>>) -> Seq<char> {
    seq!['['] + joinc(Seq::new(items.len(), |i: int| qstr(items[i]))) + seq![']']
}

/// A JSON object mapping each key to an array of strings.
pub open spec fn fobj(m: Seq<(Seq<char>, Seq<Seq<char>>)>) -> Seq<char> {
    seq!['{'] + joinc(Seq::new(m.len(), |i: int| qstr(m[i].0) + seq![':'] + sarr(m[i].1)))
        + seq!['}']
}

/// A dependency kind, as its JSON string.
pub open spec fn kind_json(k: DependencyKind) -> Seq<char> {
    match k {
        DependencyKind::Dev => "\"dev\""@,
        DependencyKind::Build => "\"build\""@,
        DependencyKind::Normal => "\"normal\""@,
    }
}

/// One dependency, as its JSON object.  Optional fields are omitted
/// when absent.
pub open spec fn dep_json(d: DepV) -> Seq<char> {
    "{\"name\":"@ + qstr(d.name)
        + ",\"req\":"@ + qstr(d.req)
        + ",\"features\":"@ + sarr(d.features)
        + ",\"optional\":"@ + bool_json(d.optional)
        + ",\"default_features\":"@ + bool_json(d.default_features)
        + (match d.target { None => Seq::<char>::empty(), Some(t) => ",\"target\":"@ + qstr(t) })
        + ",\"kind\":"@ + kind_json(d.kind)
        + (match d.registry {
            None => Seq::<char>::empty(),
            Some(r) => ",\"registry\":"@ + qstr(r),
        })
        + (match d.package {
            None => Seq::<char>::empty(),
            Some(p) => ",\"package\":"@ + qstr(p),
        }) + "}"@
}

/// One index record, as its single JSON line (without the newline).
pub open spec fn line_of(e: RootV) -> Seq<char> {
    "{\"name\":"@ + qstr(e.name)
        + ",\"vers\":"@ + qstr(e.vers)
        + ",\"deps\":["@ + joinc(Seq::new(e.deps.len(), |i: int| dep_json(e.deps[i])))
        + "],\"cksum\":"@ + qstr(e.cksum)
        + ",\"features\":"@ + fobj(e.features)
        + ",\"yanked\":"@ + bool_json(e.yanked)
        + (match e.links { None => Seq::<char>::empty(), Some(l) => ",\"links\":"@ + qstr(l) })
        + ",\"v\":"@ + dec_digits(e.v as int)
        + (if e.features2.len() == 0 { Seq::<char>::empty() } else {
            ",\"features2\":"@ + fobj(e.features2)
        })
        + (match e.rust_version {
            None => Seq::<char>::empty(),
            Some(rv) => ",\"rust_version\":"@ + qstr(rv),
        }) + "}"@
}

/// Escaping distributes over concatenation.
pub proof fn lemma_escape_concat(a: Seq<char>, b: Seq<char>)
    ensures
        escape(a + b) == escape(a) + escape(b),
    decreases a.len(),
{
    if a.len() == 0 {
        assert(a + b =~= b);
        assert(escape(a) + escape(b) =~= escape(b));
    } else {
        assert((a + b).skip(1) =~= a.skip(1) + b);
        lemma_escape_concat(a.skip(1), b);
        assert(escape(a + b) =~= escape(a) + escape(b));
    }
}

/// Escaping one more character appends its escape.
pub proof fn lemma_escape_push(s: Seq<char>, i: int)
    requires
        0 <= i < s.len(),
    ensures
        escape(s.take(i + 1)) == escape(s.take(i)) + esc_char(s[i]),
{
    assert(s.take(i + 1) =~= s.take(i) + seq![s[i]]);
    lemma_escape_concat(s.take(i), seq![s[i]]);
    assert(seq![s[i]].skip(1) =~= Seq::<char>::empty());
    assert(escape(seq![s[i]]) =~= esc_char(s[i]) + escape(Seq::<char>::empty()));
    assert(escape(seq![s[i]]) =~= esc_char(s[i]));
    assert(escape(s.take(i)) + escape(seq![s[i]]) =~= escape(s.take(i)) + esc_char(s[i]));
}

/// Joining one more piece appends a comma (except to an empty join)
/// and the piece.
pub proof fn lemma_joinc_push(xs: Seq<Seq<char>>, y: Seq<char>)
    ensures
        joinc(xs.push(y)) == joinc(xs) + (if xs.len() == 0 { Seq::<char>::empty() } else {
            seq![',']
        }) + y,
    decreases xs.len(),
{
    if xs.len() == 0 {
        assert(xs.push(y) =~= seq![y]);
        assert(joinc(seq![y]) == y);
        assert(joinc(xs) + Seq::<char>::empty() + y =~= y);
    } else {
        lemma_joinc_push(xs.skip(1), y);
        assert(xs.push(y).skip(1) =~= xs.skip(1).push(y));
        if xs.len() == 1 {
            assert(xs.skip(1).len() == 0);
            assert(joinc(xs.push(y)) == xs[0] + seq![','] + joinc(xs.skip(1).push(y)));
            assert(joinc(xs) == xs[0]);
            assert(xs[0] + seq![','] + y =~= joinc(xs) + seq![','] + y);
        } else {
            assert(joinc(xs.push(y)) == xs[0] + seq![','] + joinc(xs.skip(1).push(y)));
            assert(joinc(xs.skip(1).push(y)) == joinc(xs.skip(1)) + seq![','] + y);
            assert(joinc(xs) == xs[0] + seq![','] + joinc(xs.skip(1)));
            assert(xs[0] + seq![','] + (joinc(xs.skip(1)) + seq![','] + y) =~= (xs[0] + seq![',']
                + joinc(xs.skip(1))) + seq![','] + y);
        }
    }
}

/// One lower-case hexadecimal digit as a string slice.
pub(crate) fn hex_str(d: u8) -> (r: &'static str)
    requires
        d < 16,
    ensures
        r@ == seq![hex_digit(d as int)],
{
    if d == 0 { proof { reveal_strlit("0"); } "0" }
    else if d == 1 { proof { reveal_strlit("1"); } "1" }
    else if d == 2 { proof { reveal_strlit("2"); } "2" }
    else if d == 3 { proof { reveal_strlit("3"); } "3" }
    else if d == 4 { proof { reveal_strlit("4"); } "4" }
    else if d == 5 { proof { reveal_strlit("5"); } "5" }
    else if d == 6 { proof { reveal_strlit("6"); } "6" }
    else if d == 7 { proof { reveal_strlit("7"); } "7" }
    else if d == 8 { proof { reveal_strlit("8"); } "8" }
    else if d == 9 { proof { reveal_strlit("9"); } "9" }
    else if d == 10 { proof { reveal_strlit("a"); } "a" }
    else if d == 11 { proof { reveal_strlit("b"); } "b" }
    else if d == 12 { proof { reveal_strlit("c"); } "c" }
    else if d == 13 { proof { reveal_strlit("d"); } "d" }
    else if d == 14 { proof { reveal_strlit("e"); } "e" }
    else { proof { reveal_strlit("f"); } "f" }
}

/// Appends the decimal digits of `n`.
pub fn push_u32(out: &mut String, n: u32)
    ensures
        final(out)@ == old(out)@ + dec_digits(n as int),
    decreases n,
{
    if n >= 10 {
        push_u32(out, n / 10);
        out.append(hex_str((n % 10) as u8));
    } else {
        out.append(hex_str(n as u8));
    }
}

/// Appends one escaped character.
fn push_esc_char(out: &mut String, c: char)
    ensures
        final(out)@ == old(out)@ + esc_char(c),
{
    if c == '"' {
        proof { reveal_strlit("\\\""); }
        out.append("\\\"");
        proof { assert(out@ =~= old(out)@ + esc_char(c)); }
    } else if c == '\\' {
        proof { reveal_strlit("\\\\"); }
        out.append("\\\\");
        proof { assert(out@ =~= old(out)@ + esc_char(c)); }
    } else if c == '\u{8}' {
        proof { reveal_strlit("\\b"); }
        out.append("\\b");
        proof { assert(out@ =~= old(out)@ + esc_char(c)); }
    } else if c == '\u{9}' {
        proof { reveal_strlit("\\t"); }
        out.append("\\t");
        proof { assert(out@ =~= old(out)@ + esc_char(c)); }
    } else if c == '\u{a}' {
        proof { reveal_strlit("\\n"); }
        out.append("\\n");
        proof { assert(out@ =~= old(out)@ + esc_char(c)); }
    } else if c == '\u{c}' {
        proof { reveal_strlit("\\f"); }
        out.append("\\f");
        proof { assert(out@ =~= old(out)@ + esc_char(c)); }
    } else if c == '\u{d}' {
        proof { reveal_strlit("\\r"); }
        out.append("\\r");
        proof { assert(out@ =~= old(out)@ + esc_char(c)); }
    } else if (c as u32) < 32 {
        proof { reveal_strlit("\\u00"); }
        out.append("\\u00");
        let v = c as u32;
        out.append(hex_str((v / 16) as u8));
        out.append(hex_str((v % 16) as u8));
        proof { assert(out@ =~= old(out)@ + esc_char(c)); }
    } else {
        char_push(out, c);
        proof { assert(out@ =~= old(out)@ + esc_char(c)); }
    }
}

/// Appends one character to a string.  Relies on `String::push`, which
/// adds exactly the given character at the end.
#[verifier::external_body]
pub(crate) fn char_push(out: &mut String, c: char)
    ensures
        final(out)@ == old(out)@ + seq![c],
{
    out.push(c);
}

/// Appends the escaped characters of `s`.
pub fn push_escaped(out: &mut String, s: &str)
    ensures
        final(out)@ == old(out)@ + escape(s@),
{
    let n = s.unicode_len();
    let mut i: usize = 0;
    proof {
        assert(s@.take(0) =~= Seq::<char>::empty());
    }
    while i < n
        invariant
            n == s@.len(),
            0 <= i <= n,
            out@ == old(out)@ + escape(s@.take(i as int)),
        decreases n - i,
    {
        let c = s.get_char(i);
        push_esc_char(out, c);
        proof {
            lemma_escape_push(s@, i as int);
        }
        i += 1;
    }
    proof {
        assert(s@.take(n as int) =~= s@);
    }
}

/// Appends a JSON string.
pub fn push_qstr(out: &mut String, s: &str)
    ensures
        final(out)@ == old(out)@ + qstr(s@),
{
    proof { reveal_strlit("\""); }
    out.append("\"");
    push_escaped(out, s);
    out.append("\"");
    proof {
        assert(out@ =~= old(out)@ + qstr(s@));
    }
}

/// Appends a JSON boolean.
pub fn push_bool(out: &mut String, b: bool)
    ensures
        final(out)@ == old(out)@ + bool_json(b),
{
    if b {
        out.append("true");
    } else {
        out.append("false");
    }
}

/// Appends a JSON array of strings.
pub fn push_sarr(out: &mut String, items: &Vec<String>)
    ensures
        final(out)@ == old(out)@ + sarr(items.deep_view()),
{
    proof { reveal_strlit("["); reveal_strlit("]"); reveal_strlit(","); }
    let ghost pieces: Seq<Seq<char>> = Seq::new(
        items.deep_view().len(),
        |i: int| qstr(items.deep_view()[i]),
    );
    out.append("[");
    let n = items.len();
    let mut i: usize = 0;
    while i < n
        invariant
            n == items@.len(),
            0 <= i <= n,
            pieces == Seq::new(items.deep_view().len(), |k: int| qstr(items.deep_view()[k])),
            pieces.len() == n,
            out@ == old(out)@ + "["@ + joinc(pieces.take(i as int)),
        decreases n - i,
    {
        proof { reveal_strlit(","); }
        if i > 0 {
            out.append(",");
        }
        push_qstr(out, items[i].as_str());
        proof {
            assert(items.deep_view()[i as int] == items@[i as int]@);
        }
        proof {
            assert(pieces.take(i as int).push(pieces[i as int]) =~= pieces.take(i as int + 1));
            lemma_joinc_push(pieces.take(i as int), pieces[i as int]);
            assert(pieces[i as int] == qstr(items.deep_view()[i as int]));
            assert(out@ =~= old(out)@ + "["@ + joinc(pieces.take(i as int + 1)));
        }
        i += 1;
    }
    out.append("]");
    proof {
        assert(pieces.take(n as int) =~= pieces);
        assert(out@ =~= old(out)@ + sarr(items.deep_view()));
    }
}

/// Appends a JSON object mapping keys to arrays of strings.
pub fn push_fobj(out: &mut String, m: &Vec<(String, Vec<String>)>)
    ensures
        final(out)@ == old(out)@ + fobj(crate::index_entry::fmap_view(m@)),
{
    proof { reveal_strlit("{"); reveal_strlit("}"); reveal_strlit(","); reveal_strlit(":"); }
    let ghost mv = crate::index_entry::fmap_view(m@);
    let ghost pieces: Seq<Seq<char>> = Seq::new(
        mv.len(),
        |i: int| qstr(mv[i].0) + seq![':'] + sarr(mv[i].1),
    );
    out.append("{");
    let n = m.len();
    let mut i: usize = 0;
    while i < n
        invariant
            n == m@.len(),
            0 <= i <= n,
            mv == crate::index_entry::fmap_view(m@),
            pieces == Seq::new(mv.len(), |k: int| qstr(mv[k].0) + seq![':'] + sarr(mv[k].1)),
            pieces.len() == n,
            out@ == old(out)@ + "{"@ + joinc(pieces.take(i as int)),
        decreases n - i,
    {
        proof { reveal_strlit(","); reveal_strlit(":"); }
        if i > 0 {
            out.append(",");
        }
        push_qstr(out, m[i].0.as_str());
        out.append(":");
        push_sarr(out, &m[i].1);
        proof {
            assert(pieces.take(i as int).push(pieces[i as int]) =~= pieces.take(i as int + 1));
            lemma_joinc_push(pieces.take(i as int), pieces[i as int]);
            assert(mv[i as int].0 == m@[i as int].0@);
            assert(mv[i as int].1 == m@[i as int].1.deep_view());
            assert(out@ =~= old(out)@ + "{"@ + joinc(pieces.take(i as int + 1)));
        }
        i += 1;
    }
    out.append("}");
    proof {
        assert(pieces.take(n as int) =~= pieces);
        assert(out@ =~= old(out)@ + fobj(mv));
    }
}

/// Appends one dependency as its JSON object.
pub fn push_dep(out: &mut String, d: &Dependency)
    ensures
        final(out)@ == old(out)@ + dep_json(d@),
{
    let ghost o = old(out)@;
    out.append("{\"name\":");
    push_qstr(out, d.name.as_str());
    let ghost a1 = "{\"name\":"@ + qstr(d@.name);
    proof { lemma_cat3(o, "{\"name\":"@, qstr(d@.name)); }
    out.append(",\"req\":");
    let ghost a2 = a1 + ",\"req\":"@;
    proof { lemma_cat3(o, a1, ",\"req\":"@); }
    push_qstr(out, d.req.as_str());
    let ghost a3 = a2 + qstr(d@.req);
    proof { lemma_cat3(o, a2, qstr(d@.req)); }
    out.append(",\"features\":");
    let ghost a4 = a3 + ",\"features\":"@;
    proof { lemma_cat3(o, a3, ",\"features\":"@); }
    push_sarr(out, &d.features);
    let ghost a5 = a4 + sarr(d@.features);
    proof { lemma_cat3(o, a4, sarr(d@.features)); }
    out.append(",\"optional\":");
    let ghost a6 = a5 + ",\"optional\":"@;
    proof { lemma_cat3(o, a5, ",\"optional\":"@); }
    push_bool(out, d.optional);
    let ghost a7 = a6 + bool_json(d@.optional);
    proof { lemma_cat3(o, a6, bool_json(d@.optional)); }
    out.append(",\"default_features\":");
    let ghost a8 = a7 + ",\"default_features\":"@;
    proof { lemma_cat3(o, a7, ",\"default_features\":"@); }
    push_bool(out, d.default_features);
    let ghost a9 = a8 + bool_json(d@.default_features);
    proof { lemma_cat3(o, a8, bool_json(d@.default_features)); }
    let ghost tf = (match d@.target {
        None => Seq::<char>::empty(),
        Some(t) => ",\"target\":"@ + qstr(t),
    });
    match &d.target {
        Some(t) => {
            out.append(",\"target\":");
            proof { lemma_cat3(o, a9, ",\"target\":"@); }
            push_qstr(out, t.as_str());
            proof { lemma_cat3(o, a9 + ",\"target\":"@, qstr(t@)); }
            proof { lemma_cat3(a9, ",\"target\":"@, qstr(t@)); }
        },
        None => {
            proof { assert(a9 + tf =~= a9); }
        },
    }
    let ghost a10 = a9 + tf;
    proof { assert(out@ == o + a10); }
    out.append(",\"kind\":");
    let ghost a11 = a10 + ",\"kind\":"@;
    proof { lemma_cat3(o, a10, ",\"kind\":"@); }
    match d.kind {
        DependencyKind::Dev => out.append("\"dev\""),
        DependencyKind::Build => out.append("\"build\""),
        DependencyKind::Normal => out.append("\"normal\""),
    }
    let ghost a12 = a11 + kind_json(d@.kind);
    proof { lemma_cat3(o, a11, kind_json(d@.kind)); }
    let ghost rf = (match d@.registry {
        None => Seq::<char>::empty(),
        Some(r) => ",\"registry\":"@ + qstr(r),
    });
    match &d.registry {
        Some(r) => {
            out.append(",\"registry\":");
            proof { lemma_cat3(o, a12, ",\"registry\":"@); }
            push_qstr(out, r.as_str());
            proof { lemma_cat3(o, a12 + ",\"registry\":"@, qstr(r@)); }
            proof { lemma_cat3(a12, ",\"registry\":"@, qstr(r@)); }
        },
        None => {
            proof { assert(a12 + rf =~= a12); }
        },
    }
    let ghost a13 = a12 + rf;
    proof { assert(out@ == o + a13); }
    let ghost pf = (match d@.package {
        None => Seq::<char>::empty(),
        Some(q) => ",\"package\":"@ + qstr(q),
    });
    match &d.package {
        Some(q) => {
            out.append(",\"package\":");
            proof { lemma_cat3(o, a13, ",\"package\":"@); }
            push_qstr(out, q.as_str());
            proof { lemma_cat3(o, a13 + ",\"package\":"@, qstr(q@)); }
            proof { lemma_cat3(a13, ",\"package\":"@, qstr(q@)); }
        },
        None => {
            proof { assert(a13 + pf =~= a13); }
        },
    }
    let ghost a14 = a13 + pf;
    proof { assert(out@ == o + a14); }
    out.append("}");
    let ghost a15 = a14 + "}"@;
    proof { lemma_cat3(o, a14, "}"@); }
    proof {
        assert(a15 == dep_json(d@));
    }
}

/// Concatenation of character sequences is associative.
proof fn lemma_cat3(a: Seq<char>, b: Seq<char>, c: Seq<char>)
    ensures
        (a + b) + c == a + (b + c),
{
    assert((a + b) + c =~= a + (b + c));
}

/// Renders one index record as its JSON line, exactly `line_of`.
#[verifier::rlimit(100)]
pub fn line_for(e: &Root) -> (r: String)
    ensures
        r@ == line_of(e@),
{
    let mut out = String::new();
    let ghost o = out@;
    proof { assert(o =~= Seq::<char>::empty()); }
    out.append("{\"name\":");
    push_qstr(&mut out, e.name.as_str());
    let ghost a1 = "{\"name\":"@ + qstr(e@.name);
    proof { lemma_cat3(o, "{\"name\":"@, qstr(e@.name)); }
    out.append(",\"vers\":");
    let ghost a2 = a1 + ",\"vers\":"@;
    proof { lemma_cat3(o, a1, ",\"vers\":"@); }
    push_qstr(&mut out, e.vers.as_str());
    let ghost a3 = a2 + qstr(e@.vers);
    proof { lemma_cat3(o, a2, qstr(e@.vers)); }
    out.append(",\"deps\":[");
    let ghost a4 = a3 + ",\"deps\":["@;
    proof { lemma_cat3(o, a3, ",\"deps\":["@); }
    let ghost pieces: Seq<Seq<char>> = Seq::new(
        e.deps.deep_view().len(),
        |i: int| dep_json(e.deps.deep_view()[i]),
    );
    let n = e.deps.len();
    let ghost mid = out@;
    let mut i: usize = 0;
    while i < n
        invariant
            n == e.deps@.len(),
            0 <= i <= n,
            pieces == Seq::new(e.deps.deep_view().len(), |k: int| dep_json(e.deps.deep_view()[k])),
            pieces.len() == n,
            out@ == mid + joinc(pieces.take(i as int)),
        decreases n - i,
    {
        proof { reveal_strlit(","); }
        let ghost j0 = joinc(pieces.take(i as int));
        if i > 0 {
            out.append(",");
        }
        push_dep(&mut out, &e.deps[i]);
        proof {
            assert(e.deps.deep_view()[i as int] == e.deps@[i as int]@);
            assert(pieces.take(i as int).push(pieces[i as int]) =~= pieces.take(i as int + 1));
            lemma_joinc_push(pieces.take(i as int), pieces[i as int]);
            assert(pieces[i as int] == dep_json(e.deps@[i as int]@));
            if i > 0 {
                assert(","@ =~= seq![',']);
                vstd::seq_lib::lemma_concat_associative(mid, j0, seq![',']);
                vstd::seq_lib::lemma_concat_associative(mid, j0 + seq![','], pieces[i as int]);
                assert(out@ == mid + joinc(pieces.take(i as int + 1)));
            } else {
                assert(joinc(pieces.take(0int)) + Seq::<char>::empty() + pieces[0]
                    =~= pieces[0]);
                vstd::seq_lib::lemma_concat_associative(mid, j0, pieces[i as int]);
                assert(out@ == mid + joinc(pieces.take(i as int + 1)));
            }
        }
        i += 1;
    }
    let ghost a5 = a4 + joinc(pieces);
    proof {
        assert(pieces.take(n as int) =~= pieces);
        assert(mid == o + a4);
        lemma_cat3(o, a4, joinc(pieces));
        assert(out@ == o + a5);
    }
    out.append("],\"cksum\":");
    let ghost a6 = a5 + "],\"cksum\":"@;
    proof { lemma_cat3(o, a5, "],\"cksum\":"@); }
    push_qstr(&mut out, e.cksum.as_str());
    let ghost a7 = a6 + qstr(e@.cksum);
    proof { lemma_cat3(o, a6, qstr(e@.cksum)); }
    out.append(",\"features\":");
    let ghost a8 = a7 + ",\"features\":"@;
    proof { lemma_cat3(o, a7, ",\"features\":"@); }
    push_fobj(&mut out, &e.features);
    let ghost a9 = a8 + fobj(e@.features);
    proof { lemma_cat3(o, a8, fobj(e@.features)); }
    out.append(",\"yanked\":");
    let ghost a10 = a9 + ",\"yanked\":"@;
    proof { lemma_cat3(o, a9, ",\"yanked\":"@); }
    push_bool(&mut out, e.yanked);
    let ghost a11 = a10 + bool_json(e@.yanked);
    proof { lemma_cat3(o, a10, bool_json(e@.yanked)); }
    let ghost lf = (match e@.links {
        None => Seq::<char>::empty(),
        Some(l) => ",\"links\":"@ + qstr(l),
    });
    match &e.links {
        Some(l) => {
            out.append(",\"links\":");
            proof { lemma_cat3(o, a11, ",\"links\":"@); }
            push_qstr(&mut out, l.as_str());
            proof { lemma_cat3(o, a11 + ",\"links\":"@, qstr(l@)); }
            proof { lemma_cat3(a11, ",\"links\":"@, qstr(l@)); }
        },
        None => {
            proof { assert(a11 + lf =~= a11); }
        },
    }
    let ghost a12 = a11 + lf;
    proof { assert(out@ == o + a12); }
    out.append(",\"v\":");
    let ghost a13 = a12 + ",\"v\":"@;
    proof { lemma_cat3(o, a12, ",\"v\":"@); }
    push_u32(&mut out, e.v);
    let ghost a14 = a13 + dec_digits(e@.v as int);
    proof { lemma_cat3(o, a13, dec_digits(e@.v as int)); }
    let ghost f2f = (if e@.features2.len() == 0 { Seq::<char>::empty() } else {
        ",\"features2\":"@ + fobj(e@.features2)
    });
    if e.features2.len() > 0 {
        out.append(",\"features2\":");
        proof { lemma_cat3(o, a14, ",\"features2\":"@); }
        push_fobj(&mut out, &e.features2);
        proof { lemma_cat3(o, a14 + ",\"features2\":"@, fobj(e@.features2)); }
        proof { lemma_cat3(a14, ",\"features2\":"@, fobj(e@.features2)); }
    } else {
        proof { assert(a14 + f2f =~= a14); }
    }
    let ghost a15 = a14 + f2f;
    proof { assert(out@ == o + a15); }
    let ghost rvf = (match e@.rust_version {
        None => Seq::<char>::empty(),
        Some(rv) => ",\"rust_version\":"@ + qstr(rv),
    });
    match &e.rust_version {
        Some(rv) => {
            out.append(",\"rust_version\":");
            proof { lemma_cat3(o, a15, ",\"rust_version\":"@); }
            push_qstr(&mut out, rv.as_str());
            proof { lemma_cat3(o, a15 + ",\"rust_version\":"@, qstr(rv@)); }
            proof { lemma_cat3(a15, ",\"rust_version\":"@, qstr(rv@)); }
        },
        None => {
            proof { assert(a15 + rvf =~= a15); }
        },
    }
    let ghost a16 = a15 + rvf;
    proof { assert(out@ == o + a16); }
    out.append("}");
    let ghost a17 = a16 + "}"@;
    proof { lemma_cat3(o, a16, "}"@); }
    proof {
        assert(a17 == line_of(e@));
        assert(o + a17 =~= a17);
    }
    out
}

} // verus!
