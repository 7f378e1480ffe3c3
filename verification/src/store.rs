//! Per-crate index files: the ordered record list and its operations.
//!
//! An index holds at most one record per version string and keeps its
//! records in strictly ascending (lexical) version order — the order
//! the file is written in.  Adding an existing version overwrites its
//! record; yank and unyank only flip a flag; remove deletes the record
//! and nothing else.  A missing file means "no published versions",
//! which the registry layer expresses by parsing an absent text as an
//! empty index.

use vstd::prelude::*;
use crate::codec::{line_of, line_for};
use crate::index_entry::{Root, RootV};
use crate::parse::{parse_entry, sp_entry};
use crate::strs::{lex_lt, lemma_lex_total, lemma_lex_antisym, lemma_lex_trans, str_lt, str_eq};

verus! {

/// Records are strictly ascending by version string, so each version
/// appears at most once.
pub open spec fn index_sorted(s: Seq<RootV>) -> bool {
    forall|i: int, j: int| 0 <= i < j < s.len() ==> lex_lt(#[trigger] s[i].vers, #[trigger] s[j].vers)
}

/// Whether some record of `s` carries this version.
pub open spec fn has_vers(s: Seq<RootV>, vers: Seq<char>) -> bool {
    exists|i: int| 0 <= i < s.len() && (#[trigger] s[i].vers) == vers
}

/// Inserting a record: before the first larger version, replacing an
/// equal one.
pub open spec fn spec_insert(s: Seq<RootV>, e: RootV) -> Seq<RootV>
    decreases s.len(),
{
    if s.len() == 0 {
        seq![e]
    } else if lex_lt(e.vers, s[0].vers) {
        seq![e] + s
    } else if e.vers == s[0].vers {
        seq![e] + s.skip(1)
    } else {
        seq![s[0]] + spec_insert(s.skip(1), e)
    }
}

/// Setting the yanked flag of the record with this version; `None`
/// when no record has it.
pub open spec fn spec_set_yanked(s: Seq<RootV>, vers: Seq<char>, flag: bool) -> Option<Seq<RootV>>
    decreases s.len(),
{
    if s.len() == 0 {
        None
    } else if s[0].vers == vers {
        Some(seq![RootV { yanked: flag, ..s[0] }] + s.skip(1))
    } else {
        match spec_set_yanked(s.skip(1), vers, flag) {
            None => None,
            Some(r) => Some(seq![s[0]] + r),
        }
    }
}

/// Removing the record with this version; `None` when no record has
/// it.
pub open spec fn spec_remove(s: Seq<RootV>, vers: Seq<char>) -> Option<Seq<RootV>>
    decreases s.len(),
{
    if s.len() == 0 {
        None
    } else if s[0].vers == vers {
        Some(s.skip(1))
    } else {
        match spec_remove(s.skip(1), vers) {
            None => None,
            Some(r) => Some(seq![s[0]] + r),
        }
    }
}

/// The whole index file: one line per record, each newline-terminated.
pub open spec fn index_text(s: Seq<RootV>) -> Seq<char>
    decreases s.len(),
{
    if s.len() == 0 {
        Seq::empty()
    } else {
        line_of(s[0]) + "\n"@ + index_text(s.skip(1))
    }
}

/// The position of the first newline in `t` (the length if none).
pub open spec fn nl_pos(t: Seq<char>) -> nat
    decreases t.len(),
{
    if t.len() == 0 {
        0
    } else if t[0] == '\n' {
        0
    } else {
        1 + nl_pos(t.skip(1))
    }
}

/// The lines of `t`, split on newlines.
pub open spec fn split_nl(t: Seq<char>) -> Seq<Seq<char>>
    decreases t.len(),
{
    if t.len() == 0 {
        Seq::empty()
    } else {
        let k = nl_pos(t) as int;
        if k >= t.len() {
            seq![t]
        } else {
            seq![t.take(k)] + split_nl(t.skip(k + 1))
        }
    }
}

/// Parsing a sequence of lines from line `k` on, folding records into
/// `acc`; `Err` carries the number of the first undecodable line.
pub open spec fn spec_parse_lines(lines: Seq<Seq<char>>, k: int, acc: Seq<RootV>) -> Result<
    Seq<RootV>,
    int,
>
    decreases lines.len() - k,
{
    if k < 0 || k >= lines.len() {
        Ok(acc)
    } else if lines[k].len() == 0 {
        spec_parse_lines(lines, k + 1, acc)
    } else {
        match sp_entry(lines[k]) {
            None => Err(k),
            Some(e) => spec_parse_lines(lines, k + 1, spec_insert(acc, e)),
        }
    }
}

/// What parsing a whole index text yields.
pub open spec fn spec_parse_index(t: Seq<char>) -> Result<Seq<RootV>, int> {
    spec_parse_lines(split_nl(t), 0, Seq::empty())
}

/// Decoding an index file failed on one line.
#[derive(Debug, PartialEq, Eq, Structural, Clone, Copy)]
pub struct ParseIndexError {
    /// Zero-based number of the first line that does not decode.
    pub line: usize,
}

/// A version the caller named is not in the index.
#[derive(Debug, PartialEq, Eq, Structural, Clone, Copy)]
pub struct VersionNotFound;

/// One crate's index: its published records in ascending version
/// order.
#[derive(Debug)]
pub struct Index {
    records: Vec<Root>,
}

impl View for Index {
    type V = Seq<RootV>;

    closed spec fn view(&self) -> Seq<RootV> {
        self.records.deep_view()
    }
}

impl DeepView for Index {
    type V = Seq<RootV>;

    open spec fn deep_view(&self) -> Seq<RootV> {
        self.view()
    }
}

/// Insertion keeps the records strictly sorted.
pub proof fn lemma_insert_sorted(s: Seq<RootV>, e: RootV)
    requires
        index_sorted(s),
    ensures
        index_sorted(spec_insert(s, e)),
        spec_insert(s, e).len() >= 1,
        s.len() <= spec_insert(s, e).len() <= s.len() + 1,
    decreases s.len(),
{
    if s.len() == 0 {
    } else if lex_lt(e.vers, s[0].vers) {
        let r = seq![e] + s;
        assert forall|i: int, j: int| 0 <= i < j < r.len() implies lex_lt(r[i].vers, r[j].vers) by {
            if i == 0 {
                if j > 1 {
                    assert(lex_lt(s[0].vers, s[j - 1].vers));
                    lemma_lex_trans(e.vers, s[0].vers, s[j - 1].vers);
                    assert(lex_lt(e.vers, s[j - 1].vers)) by {
                        if e.vers == s[j - 1].vers {
                            lemma_lex_antisym(e.vers, s[0].vers);
                        }
                    }
                }
            }
        }
    } else if e.vers == s[0].vers {
        let r = seq![e] + s.skip(1);
        assert forall|i: int, j: int| 0 <= i < j < r.len() implies lex_lt(r[i].vers, r[j].vers) by {
            if i == 0 {
                assert(r[j] == s[j]);
                assert(lex_lt(s[0].vers, s[j].vers));
            } else {
                assert(r[i] == s[i] && r[j] == s[j]);
            }
        }
    } else {
        assert forall|i: int, j: int| 0 <= i < j < s.skip(1).len() implies lex_lt(
            #[trigger] s.skip(1)[i].vers,
            #[trigger] s.skip(1)[j].vers,
        ) by {
            assert(s.skip(1)[i] == s[i + 1] && s.skip(1)[j] == s[j + 1]);
        }
        lemma_insert_sorted(s.skip(1), e);
        let r = seq![s[0]] + spec_insert(s.skip(1), e);
        // the head is below e and below every old tail element
        assert(lex_lt(s[0].vers, e.vers)) by {
            lemma_lex_total(e.vers, s[0].vers);
        }
        assert forall|i: int, j: int| 0 <= i < j < r.len() implies lex_lt(r[i].vers, r[j].vers) by {
            if i == 0 {
                lemma_insert_head_above(s.skip(1), e, s[0].vers, j - 1);
            } else {
                assert(r[i] == spec_insert(s.skip(1), e)[i - 1]);
                assert(r[j] == spec_insert(s.skip(1), e)[j - 1]);
            }
        }
    }
}

/// Every record of an insertion result is either `e` or an old record,
/// so a bound below the old records and below `e` stays below them all.
proof fn lemma_insert_head_above(s: Seq<RootV>, e: RootV, b: Seq<char>, j: int)
    requires
        0 <= j < spec_insert(s, e).len(),
        lex_lt(b, e.vers),
        forall|i: int| 0 <= i < s.len() ==> lex_lt(b, (#[trigger] s[i]).vers),
    ensures
        lex_lt(b, spec_insert(s, e)[j].vers),
    decreases s.len(),
{
    if s.len() == 0 {
    } else if lex_lt(e.vers, s[0].vers) {
        if j > 0 {
            assert(spec_insert(s, e)[j] == s[j - 1]);
        }
    } else if e.vers == s[0].vers {
        if j > 0 {
            assert(spec_insert(s, e)[j] == s.skip(1)[j - 1]);
            assert(s.skip(1)[j - 1] == s[j]);
        }
    } else {
        if j > 0 {
            assert(spec_insert(s, e)[j] == spec_insert(s.skip(1), e)[j - 1]);
            assert forall|i: int| 0 <= i < s.skip(1).len() implies lex_lt(
                b,
                (#[trigger] s.skip(1)[i]).vers,
            ) by {
                assert(s.skip(1)[i] == s[i + 1]);
            }
            lemma_insert_head_above(s.skip(1), e, b, j - 1);
        }
    }
}

/// Where the scan of `insert` stops, the spec insertion splits the
/// sequence there.
proof fn lemma_insert_at(s: Seq<RootV>, e: RootV, p: int)
    requires
        0 <= p <= s.len(),
        forall|k: int| 0 <= k < p ==> lex_lt((#[trigger] s[k]).vers, e.vers),
        p < s.len() ==> !lex_lt(s[p].vers, e.vers),
    ensures
        spec_insert(s, e) == (if p < s.len() && s[p].vers == e.vers {
            s.take(p) + seq![e] + s.skip(p + 1)
        } else {
            s.take(p) + seq![e] + s.skip(p)
        }),
    decreases p,
{
    if p == 0 {
        if s.len() == 0 {
            assert(spec_insert(s, e) =~= s.take(0) + seq![e] + s.skip(0));
        } else if s[0].vers == e.vers {
            assert(spec_insert(s, e) =~= s.take(0) + seq![e] + s.skip(1));
        } else {
            lemma_lex_total(s[0].vers, e.vers);
            assert(lex_lt(e.vers, s[0].vers));
            assert(spec_insert(s, e) =~= s.take(0) + seq![e] + s.skip(0));
        }
    } else {
        assert(lex_lt(s[0].vers, e.vers));
        assert(!(e.vers == s[0].vers));
        assert(!lex_lt(e.vers, s[0].vers)) by {
            if lex_lt(e.vers, s[0].vers) {
                lemma_lex_antisym(s[0].vers, e.vers);
            }
        }
        assert forall|k: int| 0 <= k < p - 1 implies lex_lt((#[trigger] s.skip(1)[k]).vers, e.vers)
        by {
            assert(s.skip(1)[k] == s[k + 1]);
        }
        assert(p - 1 < s.skip(1).len() ==> !lex_lt(s.skip(1)[p - 1].vers, e.vers)) by {
            if p - 1 < s.skip(1).len() {
                assert(s.skip(1)[p - 1] == s[p]);
            }
        }
        lemma_insert_at(s.skip(1), e, p - 1);
        if p < s.len() && s[p].vers == e.vers {
            assert(s.skip(1)[p - 1].vers == e.vers);
            assert(seq![s[0]] + (s.skip(1).take(p - 1) + seq![e] + s.skip(1).skip(p)) =~= s.take(p)
                + seq![e] + s.skip(p + 1));
        } else {
            assert(seq![s[0]] + (s.skip(1).take(p - 1) + seq![e] + s.skip(1).skip(p - 1)) =~= s.take(
                p,
            ) + seq![e] + s.skip(p));
        }
    }
}

impl Index {
    /// The records are strictly sorted by version.
    pub open spec fn wf(&self) -> bool {
        index_sorted(self@)
    }

    /// An index with no records.
    pub fn new() -> (r: Index)
        ensures
            r@ =~= Seq::<RootV>::empty(),
            r.wf(),
    {
        Index { records: Vec::new() }
    }

    /// How many versions are published.
    pub fn len(&self) -> (r: usize)
        ensures
            r == self@.len(),
    {
        self.records.len()
    }

    /// The records, in file order.
    pub fn records(&self) -> (r: &Vec<Root>)
        ensures
            r.deep_view() == self@,
    {
        &self.records
    }

    /// Inserts one record, overwriting any record with the same
    /// version, keeping the order.
    pub fn insert(&mut self, e: Root)
        requires
            old(self).wf(),
        ensures
            final(self)@ == spec_insert(old(self)@, e@),
            final(self).wf(),
            has_vers(final(self)@, e@.vers),
    {
        let ghost s0 = self@;
        let n = self.records.len();
        let mut p: usize = 0;
        loop
            invariant
                n == self.records@.len(),
                0 <= p <= n,
                s0 == self.records.deep_view(),
                forall|k: int| 0 <= k < p ==> lex_lt((#[trigger] s0[k]).vers, e@.vers),
            ensures
                0 <= p <= n,
                s0 == self.records.deep_view(),
                forall|k: int| 0 <= k < p ==> lex_lt((#[trigger] s0[k]).vers, e@.vers),
                p < n ==> !lex_lt(s0[p as int].vers, e@.vers),
            decreases n - p,
        {
            if p >= n {
                break;
            }
            proof {
                assert(s0[p as int] == self.records@[p as int]@);
            }
            if !str_lt(self.records[p].vers.as_str(), e.vers.as_str()) {
                break;
            }
            p += 1;
        }
        proof {
            lemma_insert_at(s0, e@, p as int);
            lemma_insert_sorted(s0, e@);
        }
        if p < n {
            if str_eq(self.records[p].vers.as_str(), e.vers.as_str()) {
                let _old = self.records.remove(p);
                self.records.insert(p, e);
                proof {
                    assert(self.records.deep_view() =~= s0.take(p as int) + seq![e@] + s0.skip(
                        p as int + 1,
                    ));
                }
                proof {
                    assert(spec_insert(s0, e@)[p as int].vers == e@.vers);
                }
                return;
            }
        }
        self.records.insert(p, e);
        proof {
            assert(self.records.deep_view() =~= s0.take(p as int) + seq![e@] + s0.skip(p as int));
            assert(spec_insert(s0, e@)[p as int].vers == e@.vers);
        }
    }
}

/// Where the scan of `set_yanked` finds the version, the spec update
/// splits the sequence there.
proof fn lemma_set_yanked_at(s: Seq<RootV>, vers: Seq<char>, flag: bool, k: int)
    requires
        0 <= k < s.len(),
        s[k].vers == vers,
        forall|x: int| 0 <= x < k ==> (#[trigger] s[x]).vers != vers,
    ensures
        spec_set_yanked(s, vers, flag) == Some(
            s.take(k) + seq![RootV { yanked: flag, ..s[k] }] + s.skip(k + 1),
        ),
    decreases k,
{
    if k == 0 {
        assert(seq![RootV { yanked: flag, ..s[0] }] + s.skip(1) =~= s.take(0) + seq![
            RootV { yanked: flag, ..s[0] },
        ] + s.skip(1));
    } else {
        assert forall|x: int| 0 <= x < k - 1 implies (#[trigger] s.skip(1)[x]).vers != vers by {
            assert(s.skip(1)[x] == s[x + 1]);
        }
        assert(s.skip(1)[k - 1] == s[k]);
        lemma_set_yanked_at(s.skip(1), vers, flag, k - 1);
        assert(seq![s[0]] + (s.skip(1).take(k - 1) + seq![RootV { yanked: flag, ..s[k] }]
            + s.skip(1).skip(k)) =~= s.take(k) + seq![RootV { yanked: flag, ..s[k] }] + s.skip(
            k + 1,
        ));
    }
}

/// Where the scan of `remove` finds the version, the spec removal
/// splits the sequence there.
proof fn lemma_remove_at(s: Seq<RootV>, vers: Seq<char>, k: int)
    requires
        0 <= k < s.len(),
        s[k].vers == vers,
        forall|x: int| 0 <= x < k ==> (#[trigger] s[x]).vers != vers,
    ensures
        spec_remove(s, vers) == Some(s.take(k) + s.skip(k + 1)),
    decreases k,
{
    if k == 0 {
        assert(s.skip(1) =~= s.take(0) + s.skip(1));
    } else {
        assert forall|x: int| 0 <= x < k - 1 implies (#[trigger] s.skip(1)[x]).vers != vers by {
            assert(s.skip(1)[x] == s[x + 1]);
        }
        assert(s.skip(1)[k - 1] == s[k]);
        lemma_remove_at(s.skip(1), vers, k - 1);
        assert(seq![s[0]] + (s.skip(1).take(k - 1) + s.skip(1).skip(k)) =~= s.take(k) + s.skip(
            k + 1,
        ));
    }
}

/// A version is updatable exactly when some record carries it.
pub proof fn lemma_set_yanked_some(s: Seq<RootV>, vers: Seq<char>, flag: bool)
    ensures
        spec_set_yanked(s, vers, flag) is Some <==> has_vers(s, vers),
    decreases s.len(),
{
    if s.len() > 0 && s[0].vers != vers {
        lemma_set_yanked_some(s.skip(1), vers, flag);
        assert forall|i: int| 0 <= i < s.skip(1).len() implies s.skip(1)[i] == s[i + 1] by {}
        if has_vers(s, vers) {
            let i = choose|i: int| 0 <= i < s.len() && (#[trigger] s[i].vers) == vers;
            assert(s.skip(1)[i - 1].vers == vers);
        }
        if has_vers(s.skip(1), vers) {
            let i = choose|i: int| 0 <= i < s.skip(1).len() && (#[trigger] s.skip(1)[i].vers)
                == vers;
            assert(s[i + 1].vers == vers);
        }
    }
}

/// A version is removable exactly when some record carries it.
pub proof fn lemma_remove_some(s: Seq<RootV>, vers: Seq<char>)
    ensures
        spec_remove(s, vers) is Some <==> has_vers(s, vers),
    decreases s.len(),
{
    if s.len() > 0 && s[0].vers != vers {
        lemma_remove_some(s.skip(1), vers);
        if has_vers(s, vers) {
            let i = choose|i: int| 0 <= i < s.len() && (#[trigger] s[i].vers) == vers;
            assert(s.skip(1)[i - 1].vers == vers);
        }
        if has_vers(s.skip(1), vers) {
            let i = choose|i: int| 0 <= i < s.skip(1).len() && (#[trigger] s.skip(1)[i].vers)
                == vers;
            assert(s[i + 1].vers == vers);
        }
    }
}

impl Index {
    /// Sets the yanked flag of one version; fails, changing nothing,
    /// when the version is not present.
    pub fn set_yanked(&mut self, vers: &str, flag: bool) -> (r: Result<(), VersionNotFound>)
        requires
            old(self).wf(),
        ensures
            match r {
                Ok(()) => spec_set_yanked(old(self)@, vers@, flag) == Some(final(self)@),
                Err(_) => spec_set_yanked(old(self)@, vers@, flag) is None && final(self)@
                    == old(self)@,
            },
            final(self).wf(),
    {
        let ghost s0 = self@;
        let n = self.records.len();
        let mut k: usize = 0;
        while k < n
            invariant
                n == self.records@.len(),
                s0 == self.records.deep_view(),
                s0 == old(self)@,
                index_sorted(s0),
                0 <= k <= n,
                forall|x: int| 0 <= x < k ==> (#[trigger] s0[x]).vers != vers@,
            decreases n - k,
        {
            proof {
                assert(s0[k as int] == self.records@[k as int]@);
            }
            if str_eq(self.records[k].vers.as_str(), vers) {
                let mut e = self.records.remove(k);
                e.yanked = flag;
                self.records.insert(k, e);
                proof {
                    lemma_set_yanked_at(s0, vers@, flag, k as int);
                    assert(self.records.deep_view() =~= s0.take(k as int) + seq![
                        RootV { yanked: flag, ..s0[k as int] },
                    ] + s0.skip(k as int + 1));
                    let r = self@;
                    assert(s0.take(k as int).len() == k);
                    assert(r.len() == s0.len());
                    assert forall|i: int| 0 <= i < r.len() implies (#[trigger] r[i]).vers
                        == s0[i].vers by {
                        if i < k {
                            assert(r[i] == s0.take(k as int)[i]);
                            assert(r[i] == s0[i]);
                        } else if i == k {
                            assert(r[i] == RootV { yanked: flag, ..s0[k as int] });
                        } else {
                            assert(r[i] == s0.skip(k as int + 1)[i - k - 1]);
                            assert(r[i] == s0[i]);
                        }
                    }
                    assert forall|i: int, j: int| 0 <= i < j < r.len() implies lex_lt(
                        (#[trigger] r[i]).vers,
                        (#[trigger] r[j]).vers,
                    ) by {
                        assert(r[i].vers == s0[i].vers);
                        assert(r[j].vers == s0[j].vers);
                        assert(lex_lt(s0[i].vers, s0[j].vers));
                    }
                    assert(index_sorted(r));
                }
                return Ok(());
            }
            k += 1;
        }
        proof {
            assert(!has_vers(s0, vers@));
            lemma_set_yanked_some(s0, vers@, flag);
        }
        Err(VersionNotFound)
    }

    /// Deletes the record of one version entirely; fails, changing
    /// nothing, when the version is not present.  No other record and
    /// nothing else is touched.
    pub fn remove(&mut self, vers: &str) -> (r: Result<(), VersionNotFound>)
        requires
            old(self).wf(),
        ensures
            match r {
                Ok(()) => spec_remove(old(self)@, vers@) == Some(final(self)@),
                Err(_) => spec_remove(old(self)@, vers@) is None && final(self)@ == old(self)@,
            },
            final(self).wf(),
    {
        let ghost s0 = self@;
        let n = self.records.len();
        let mut k: usize = 0;
        while k < n
            invariant
                n == self.records@.len(),
                s0 == self.records.deep_view(),
                s0 == old(self)@,
                index_sorted(s0),
                0 <= k <= n,
                forall|x: int| 0 <= x < k ==> (#[trigger] s0[x]).vers != vers@,
            decreases n - k,
        {
            proof {
                assert(s0[k as int] == self.records@[k as int]@);
            }
            if str_eq(self.records[k].vers.as_str(), vers) {
                let _gone = self.records.remove(k);
                proof {
                    lemma_remove_at(s0, vers@, k as int);
                    assert(self.records.deep_view() =~= s0.take(k as int) + s0.skip(k as int + 1));
                    let r = self@;
                    assert(s0.take(k as int).len() == k);
                    assert(r.len() == s0.len() - 1);
                    assert forall|i: int, j: int| 0 <= i < j < r.len() implies lex_lt(
                        (#[trigger] r[i]).vers,
                        (#[trigger] r[j]).vers,
                    ) by {
                        if i < k {
                            assert(r[i] == s0.take(k as int)[i]);
                            assert(r[i] == s0[i]);
                        } else {
                            assert(r[i] == s0.skip(k as int + 1)[i - k]);
                            assert(r[i] == s0[i + 1]);
                        }
                        if j < k {
                            assert(r[j] == s0.take(k as int)[j]);
                            assert(r[j] == s0[j]);
                        } else {
                            assert(r[j] == s0.skip(k as int + 1)[j - k]);
                            assert(r[j] == s0[j + 1]);
                        }
                    }
                }
                return Ok(());
            }
            k += 1;
        }
        proof {
            assert(!has_vers(s0, vers@));
            lemma_remove_some(s0, vers@);
        }
        Err(VersionNotFound)
    }

    /// Serializes the index: each record's line, newline-terminated,
    /// in order.
    pub fn write_index(&self) -> (r: String)
        ensures
            r@ == index_text(self@),
    {
        let mut out = String::new();
        let n = self.records.len();
        let mut i: usize = 0;
        proof {
            assert(self@.take(0) =~= Seq::<RootV>::empty());
        }
        while i < n
            invariant
                n == self.records@.len(),
                self@ == self.records.deep_view(),
                0 <= i <= n,
                out@ == index_text(self@.take(i as int)),
            decreases n - i,
        {
            let line = line_for(&self.records[i]);
            out.append(line.as_str());
            proof { reveal_strlit("\n"); }
            out.append("\n");
            proof {
                assert(self@[i as int] == self.records@[i as int]@);
                lemma_index_text_push(self@, i as int);
            }
            i += 1;
        }
        proof {
            assert(self@.take(n as int) =~= self@);
        }
        out
    }

    /// Decodes a whole index file: every non-empty line must decode,
    /// records collect in version order, a later record of a version
    /// replaces an earlier one.
    pub fn parse_index(text: &str) -> (r: Result<Index, ParseIndexError>)
        ensures
            match r {
                Ok(idx) => spec_parse_index(text@) == Ok::<Seq<RootV>, int>(idx@) && idx.wf(),
                Err(e) => spec_parse_index(text@) == Err::<Seq<RootV>, int>(e.line as int),
            },
    {
        let lines = split_lines(text);
        let ghost lv = lines.deep_view();
        let mut idx = Index::new();
        let m = lines.len();
        let mut k: usize = 0;
        while k < m
            invariant
                m == lines@.len(),
                lv == lines.deep_view(),
                lv == split_nl(text@),
                0 <= k <= m,
                idx.wf(),
                spec_parse_lines(lv, 0, Seq::empty()) == spec_parse_lines(lv, k as int, idx@),
            decreases m - k,
        {
            proof {
                assert(lv[k as int] == lines@[k as int]@);
            }
            if !lines[k].as_str().is_empty() {
                match parse_entry(lines[k].as_str()) {
                    Some(e) => {
                        idx.insert(e);
                    },
                    None => {
                        return Err(ParseIndexError { line: k });
                    },
                }
            }
            k += 1;
        }
        Ok(idx)
    }
}

/// Serializing one more record appends its line and a newline.
#[verifier::rlimit(50)]
proof fn lemma_index_text_push(s: Seq<RootV>, i: int)
    requires
        0 <= i < s.len(),
    ensures
        index_text(s.take(i + 1)) == index_text(s.take(i)) + line_of(s[i]) + "\n"@,
{
    assert(s.take(i + 1) =~= s.take(i) + seq![s[i]]);
    lemma_index_text_concat(s.take(i), seq![s[i]]);
    assert(seq![s[i]].skip(1) =~= Seq::<RootV>::empty());
    assert(index_text(Seq::<RootV>::empty()) == Seq::<char>::empty());
    assert(line_of(s[i]) + "\n"@ + Seq::<char>::empty() =~= line_of(s[i]) + "\n"@);
    assert(index_text(seq![s[i]]) =~= line_of(s[i]) + "\n"@);
    assert(index_text(s.take(i)) + (line_of(s[i]) + "\n"@) =~= index_text(s.take(i)) + line_of(
        s[i],
    ) + "\n"@);
}

/// Serialization distributes over concatenation.
#[verifier::rlimit(60)]
proof fn lemma_index_text_concat(a: Seq<RootV>, b: Seq<RootV>)
    ensures
        index_text(a + b) == index_text(a) + index_text(b),
    decreases a.len(),
{
    if a.len() == 0 {
        assert(a + b =~= b);
        assert(index_text(a) + index_text(b) =~= index_text(b));
    } else {
        assert((a + b).skip(1) =~= a.skip(1) + b);
        lemma_index_text_concat(a.skip(1), b);
        assert(index_text(a + b) =~= index_text(a) + index_text(b));
    }
}

/// The first newline of `u` stands at `p`: no newline before it, and
/// either a newline there or the end of the text.
proof fn lemma_nl_pos(u: Seq<char>, p: int)
    requires
        0 <= p <= u.len(),
        forall|x: int| 0 <= x < p ==> (#[trigger] u[x]) != '\n',
        p < u.len() ==> u[p] == '\n',
    ensures
        nl_pos(u) == p,
    decreases p,
{
    if u.len() == 0 {
    } else if p == 0 {
    } else {
        assert forall|x: int| 0 <= x < p - 1 implies (#[trigger] u.skip(1)[x]) != '\n' by {
            assert(u.skip(1)[x] == u[x + 1]);
        }
        assert(p - 1 < u.skip(1).len() ==> u.skip(1)[p - 1] == '\n') by {
            if p - 1 < u.skip(1).len() {
                assert(u.skip(1)[p - 1] == u[p]);
            }
        }
        lemma_nl_pos(u.skip(1), p - 1);
    }
}

/// Splits a text into its lines, exactly `split_nl`.
pub fn split_lines(text: &str) -> (r: Vec<String>)
    ensures
        r.deep_view() == split_nl(text@),
{
    let n = text.unicode_len();
    let mut out: Vec<String> = Vec::new();
    let mut i: usize = 0;
    proof {
        assert(text@.skip(0) =~= text@);
        assert(out.deep_view() =~= Seq::<Seq<char>>::empty());
        assert(Seq::<Seq<char>>::empty() + split_nl(text@) =~= split_nl(text@));
    }
    while i < n
        invariant
            n == text@.len(),
            0 <= i <= n,
            split_nl(text@) == out.deep_view() + split_nl(text@.skip(i as int)),
        decreases n - i,
    {
        let ghost outv0 = out.deep_view();
        let mut j: usize = i;
        loop
            invariant
                n == text@.len(),
                i <= j <= n,
                forall|x: int| i <= x < j ==> (#[trigger] text@[x]) != '\n',
            ensures
                i <= j <= n,
                forall|x: int| i <= x < j ==> (#[trigger] text@[x]) != '\n',
                j < n ==> text@[j as int] == '\n',
            decreases n - j,
        {
            if j >= n {
                break;
            }
            if text.get_char(j) == '\n' {
                break;
            }
            j += 1;
        }
        let line = text.substring_char(i, j);
        out.push(line.to_owned());
        proof {
            let t = text@;
            let u = t.skip(i as int);
            assert forall|x: int| 0 <= x < j - i implies (#[trigger] u[x]) != '\n' by {
                assert(u[x] == t[x + i]);
            }
            assert(j - i < u.len() ==> u[j - i] == '\n') by {
                if j < n {
                    assert(u[j - i] == t[j as int]);
                }
            }
            lemma_nl_pos(u, j - i);
            assert(out.deep_view() =~= outv0 + seq![t.subrange(i as int, j as int)]);
            if j < n {
                assert(u.take(j - i) =~= t.subrange(i as int, j as int));
                assert(u.skip(j - i + 1) =~= t.skip(j + 1));
                assert(split_nl(u) == seq![t.subrange(i as int, j as int)] + split_nl(
                    t.skip(j + 1),
                ));
                assert(outv0 + split_nl(u) =~= out.deep_view() + split_nl(t.skip(j + 1)));
            } else {
                assert(u =~= t.subrange(i as int, j as int));
                assert(split_nl(u) == seq![u]);
                assert(t.skip(n as int).len() == 0);
                assert(split_nl(t.skip(n as int)) =~= Seq::<Seq<char>>::empty());
                assert(outv0 + split_nl(u) =~= out.deep_view() + split_nl(t.skip(n as int)));
            }
        }
        if j < n {
            i = j + 1;
        } else {
            i = n;
        }
    }
    proof {
        assert(text@.skip(i as int).len() == 0);
        assert(split_nl(text@.skip(i as int)) =~= Seq::<Seq<char>>::empty());
        assert(out.deep_view() =~= out.deep_view() + split_nl(text@.skip(i as int)));
    }
    out
}

/// Adding a record twice is the same as adding it once: the second
/// insertion only overwrites the first with an identical record.
pub proof fn lemma_insert_idempotent(s: Seq<RootV>, e: RootV)
    ensures
        spec_insert(spec_insert(s, e), e) == spec_insert(s, e),
    decreases s.len(),
{
    if s.len() == 0 {
        assert(spec_insert(seq![e], e) =~= seq![e]);
    } else if lex_lt(e.vers, s[0].vers) {
        let r = seq![e] + s;
        assert(r[0] == e);
        assert(spec_insert(r, e) =~= seq![e] + r.skip(1));
        assert(seq![e] + r.skip(1) =~= r);
    } else if e.vers == s[0].vers {
        let r = seq![e] + s.skip(1);
        assert(r[0] == e);
        assert(spec_insert(r, e) =~= seq![e] + r.skip(1));
        assert(seq![e] + r.skip(1) =~= r);
    } else {
        lemma_insert_idempotent(s.skip(1), e);
        let r = seq![s[0]] + spec_insert(s.skip(1), e);
        assert(r[0] == s[0]);
        assert(r.skip(1) =~= spec_insert(s.skip(1), e));
        assert(spec_insert(r, e) == seq![s[0]] + spec_insert(r.skip(1), e));
        assert(seq![s[0]] + spec_insert(spec_insert(s.skip(1), e), e) =~= seq![s[0]] + spec_insert(
            s.skip(1),
            e,
        ));
    }
}

/// Setting the yanked flag twice keeps only the last setting.
pub proof fn lemma_set_yanked_twice(s: Seq<RootV>, vers: Seq<char>, f1: bool, f2: bool)
    requires
        spec_set_yanked(s, vers, f1) is Some,
    ensures
        spec_set_yanked(spec_set_yanked(s, vers, f1)->Some_0, vers, f2) == spec_set_yanked(
            s,
            vers,
            f2,
        ),
    decreases s.len(),
{
    if s.len() == 0 {
    } else if s[0].vers == vers {
        let y = seq![RootV { yanked: f1, ..s[0] }] + s.skip(1);
        assert(y[0].vers == vers);
        assert(RootV { yanked: f2, ..y[0] } =~= RootV { yanked: f2, ..s[0] });
        assert(y.skip(1) =~= s.skip(1));
        assert(seq![RootV { yanked: f2, ..y[0] }] + y.skip(1) =~= seq![
            RootV { yanked: f2, ..s[0] },
        ] + s.skip(1));
    } else {
        lemma_set_yanked_twice(s.skip(1), vers, f1, f2);
        let y1 = spec_set_yanked(s.skip(1), vers, f1)->Some_0;
        let y = seq![s[0]] + y1;
        assert(y[0] == s[0]);
        assert(y.skip(1) =~= y1);
        match spec_set_yanked(y1, vers, f2) {
            Some(y2) => {
                assert(spec_set_yanked(y, vers, f2) == Some(seq![s[0]] + y2));
            },
            None => {},
        }
    }
}

/// Setting a flag a record already carries changes nothing: yanking an
/// already-yanked version, or unyanking a never-yanked one, is a no-op.
pub proof fn lemma_set_yanked_noop(s: Seq<RootV>, vers: Seq<char>, f: bool)
    requires
        index_sorted(s),
        exists|i: int| 0 <= i < s.len() && (#[trigger] s[i]).vers == vers && s[i].yanked == f,
    ensures
        spec_set_yanked(s, vers, f) == Some(s),
    decreases s.len(),
{
    let i = choose|i: int| 0 <= i < s.len() && (#[trigger] s[i]).vers == vers && s[i].yanked == f;
    if s[0].vers == vers {
        if i > 0 {
            assert(lex_lt(s[0].vers, s[i].vers));
            assert(false);
        }
        assert(RootV { yanked: f, ..s[0] } =~= s[0]);
        assert(seq![RootV { yanked: f, ..s[0] }] + s.skip(1) =~= s);
    } else {
        assert(i > 0);
        assert(s.skip(1)[i - 1] == s[i]);
        assert forall|a: int, b: int| 0 <= a < b < s.skip(1).len() implies lex_lt(
            (#[trigger] s.skip(1)[a]).vers,
            (#[trigger] s.skip(1)[b]).vers,
        ) by {
            assert(s.skip(1)[a] == s[a + 1] && s.skip(1)[b] == s[b + 1]);
        }
        lemma_set_yanked_noop(s.skip(1), vers, f);
        assert(seq![s[0]] + s.skip(1) =~= s);
    }
}

/// Removal is permanent and touches nothing else: the removed version
/// is gone, every other version is still there, and exactly one record
/// left.
pub proof fn lemma_remove_permanent(s: Seq<RootV>, vers: Seq<char>)
    requires
        index_sorted(s),
        spec_remove(s, vers) is Some,
    ensures
        !has_vers(spec_remove(s, vers)->Some_0, vers),
        spec_remove(s, vers)->Some_0.len() == s.len() - 1,
        forall|w: Seq<char>|
            w != vers ==> (has_vers(spec_remove(s, vers)->Some_0, w) <==> has_vers(s, w)),
    decreases s.len(),
{
    let r = spec_remove(s, vers)->Some_0;
    if s[0].vers == vers {
        assert(r =~= s.skip(1));
        assert forall|k: int| 0 <= k < r.len() implies (#[trigger] r[k]).vers != vers by {
            assert(r[k] == s[k + 1]);
            assert(lex_lt(s[0].vers, s[k + 1].vers));
        }
        assert forall|w: Seq<char>| w != vers implies (has_vers(r, w) <==> has_vers(s, w)) by {
            if has_vers(r, w) {
                let k = choose|k: int| 0 <= k < r.len() && (#[trigger] r[k]).vers == w;
                assert(s[k + 1].vers == w);
            }
            if has_vers(s, w) {
                let k = choose|k: int| 0 <= k < s.len() && (#[trigger] s[k]).vers == w;
                assert(k > 0);
                assert(r[k - 1].vers == w);
            }
        }
    } else {
        assert forall|a: int, b: int| 0 <= a < b < s.skip(1).len() implies lex_lt(
            (#[trigger] s.skip(1)[a]).vers,
            (#[trigger] s.skip(1)[b]).vers,
        ) by {
            assert(s.skip(1)[a] == s[a + 1] && s.skip(1)[b] == s[b + 1]);
        }
        lemma_remove_permanent(s.skip(1), vers);
        let r1 = spec_remove(s.skip(1), vers)->Some_0;
        assert(r =~= seq![s[0]] + r1);
        assert forall|k: int| 0 <= k < r.len() implies (#[trigger] r[k]).vers != vers by {
            if k > 0 {
                assert(r[k] == r1[k - 1]);
                assert(!has_vers(r1, vers));
                if r1[k - 1].vers == vers {
                    assert(has_vers(r1, vers));
                }
            }
        }
        assert forall|w: Seq<char>| w != vers implies (has_vers(r, w) <==> has_vers(s, w)) by {
            if has_vers(r, w) {
                let k = choose|k: int| 0 <= k < r.len() && (#[trigger] r[k]).vers == w;
                if k == 0 {
                    assert(s[0].vers == w);
                } else {
                    assert(r1[k - 1].vers == w);
                    assert(has_vers(r1, w));
                    assert(has_vers(s.skip(1), w));
                    let m = choose|m: int| 0 <= m < s.skip(1).len() && (#[trigger] s.skip(1)[m]).vers == w;
                    assert(s[m + 1].vers == w);
                }
            }
            if has_vers(s, w) {
                let k = choose|k: int| 0 <= k < s.len() && (#[trigger] s[k]).vers == w;
                if k == 0 {
                    assert(r[0].vers == w);
                } else {
                    assert(s.skip(1)[k - 1].vers == w);
                    assert(has_vers(s.skip(1), w));
                    assert(has_vers(r1, w));
                    let m = choose|m: int| 0 <= m < r1.len() && (#[trigger] r1[m]).vers == w;
                    assert(r[m + 1].vers == w);
                }
            }
        }
    }
}

/// Yank and unyank invert each other: yanking a version that is
/// present and not yanked, then unyanking it, gives the index back
/// unchanged.
pub proof fn lemma_yank_then_unyank(s: Seq<RootV>, vers: Seq<char>)
    requires
        index_sorted(s),
        spec_set_yanked(s, vers, false) == Some(s),
    ensures
        spec_set_yanked(s, vers, true) is Some,
        spec_set_yanked(spec_set_yanked(s, vers, true)->Some_0, vers, false) == Some(s),
{
    lemma_set_yanked_some(s, vers, false);
    lemma_set_yanked_some(s, vers, true);
    lemma_set_yanked_twice(s, vers, true, false);
}

} // verus!
