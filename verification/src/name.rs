//! Validated crate names and the directory-sharding rule.
//!
//! A crate name is a non-empty ASCII string whose first character is
//! alphabetic and whose remaining characters are alphanumeric, `_` or
//! `-`.  The same name is used as a mapping key and as a path segment,
//! and both the index path and the archive path of a crate are derived
//! from it by one sharding rule, so the two are always co-locatable.

use vstd::prelude::*;

verus! {

/// A character that may appear anywhere in a crate name.
pub open spec fn valid_name_char(c: char) -> bool {
    ||| 'a' <= c && c <= 'z'
    ||| 'A' <= c && c <= 'Z'
    ||| '0' <= c && c <= '9'
    ||| c == '_'
    ||| c == '-'
}

/// An ASCII alphabetic character.
pub open spec fn alpha_char(c: char) -> bool {
    ('a' <= c && c <= 'z') || ('A' <= c && c <= 'Z')
}

/// A candidate string constructs a `CrateName` exactly when this holds:
/// non-empty, first character alphabetic, every character alphanumeric,
/// `_` or `-`.  All such characters are ASCII.
pub open spec fn valid_crate_name(s: Seq<char>) -> bool {
    &&& s.len() > 0
    &&& alpha_char(s[0])
    &&& forall|i: int| 0 <= i < s.len() ==> valid_name_char(#[trigger] s[i])
}

/// The first character of `s` that is not allowed in a crate name.
pub open spec fn first_bad_char(s: Seq<char>) -> char
    decreases s.len(),
{
    if s.len() == 0 {
        ' '
    } else if !valid_name_char(s[0]) {
        s[0]
    } else {
        first_bad_char(s.skip(1))
    }
}

/// Why a candidate string was rejected as a crate name.
#[derive(Debug, PartialEq, Eq, Structural, Clone, Copy)]
pub enum CrateNameError {
    /// The string holds a byte outside the ASCII range.
    NotAscii,
    /// The string is empty.
    Empty,
    /// The first character is not alphabetic.
    InitialAlpha,
    /// Some character is not alphanumeric, `_` or `-`.
    ContainsInvalidChar { chr: char },
}

/// The exact error a given rejected candidate is reported with.
pub open spec fn spec_name_error(s: Seq<char>) -> CrateNameError {
    if !vstd::utf8::is_ascii_chars(s) {
        CrateNameError::NotAscii
    } else if s.len() == 0 {
        CrateNameError::Empty
    } else if !alpha_char(s[0]) {
        CrateNameError::InitialAlpha
    } else {
        CrateNameError::ContainsInvalidChar { chr: first_bad_char(s) }
    }
}

/// A validated crate name.  Contains only alphanumeric, `-` or `_`
/// characters, starts with an alphabetic one, and is never empty.
#[derive(Debug)]
pub struct CrateName {
    text: String,
}

impl View for CrateName {
    type V = Seq<char>;

    closed spec fn view(&self) -> Seq<char> {
        self.text@
    }
}

impl DeepView for CrateName {
    type V = Seq<char>;

    open spec fn deep_view(&self) -> Seq<char> {
        self.view()
    }
}

impl CrateName {
    /// The invariant every constructed name satisfies.
    pub open spec fn wf(&self) -> bool {
        valid_crate_name(self@)
    }

    /// Validates a candidate string.  Succeeds exactly on valid crate
    /// names and reports the precise reason for each rejection.
    pub fn try_from(value: &str) -> (r: Result<CrateName, CrateNameError>)
        ensures
            match r {
                Ok(n) => valid_crate_name(value@) && n@ == value@ && n.wf(),
                Err(e) => !valid_crate_name(value@) && e == spec_name_error(value@),
            },
    {
        if !value.is_ascii() {
            proof {
                let i = choose|i: int|
                    0 <= i < value@.len() && !('\0' <= #[trigger] value@[i] <= '\u{7f}');
                assert(!valid_name_char(value@[i]));
            }
            return Err(CrateNameError::NotAscii);
        }
        let n = value.unicode_len();
        if n == 0 {
            return Err(CrateNameError::Empty);
        }
        let first = value.get_char(0);
        if !(('a' <= first && first <= 'z') || ('A' <= first && first <= 'Z')) {
            return Err(CrateNameError::InitialAlpha);
        }
        let mut i: usize = 0;
        while i < n
            invariant
                n == value@.len(),
                0 <= i <= n,
                n > 0,
                vstd::utf8::is_ascii_chars(value@),
                alpha_char(value@[0]),
                forall|j: int| 0 <= j < i ==> valid_name_char(#[trigger] value@[j]),
            decreases n - i,
        {
            let c = value.get_char(i);
            if !(('a' <= c && c <= 'z') || ('A' <= c && c <= 'Z') || ('0' <= c && c <= '9')
                || c == '_' || c == '-') {
                proof {
                    assert(value@[i as int] == c);
                    assert(!valid_name_char(value@[i as int]));
                    lemma_first_bad_char_at(value@, i as int);
                }
                return Err(CrateNameError::ContainsInvalidChar { chr: c });
            }
            i += 1;
        }
        Ok(CrateName { text: value.to_owned() })
    }

    /// The name as a string slice.
    pub fn as_str(&self) -> (r: &str)
        ensures
            r@ == self@,
    {
        self.text.as_str()
    }

    /// The name's length in characters.
    pub fn len(&self) -> (r: usize)
        ensures
            r == self@.len(),
    {
        self.text.as_str().unicode_len()
    }

    /// A copy of the name.
    pub fn duplicate(&self) -> (r: CrateName)
        ensures
            r@ == self@,
    {
        CrateName { text: self.text.clone() }
    }
}

/// The shard directories derived from a name's own characters: length
/// 1 gives `1`, length 2 gives `2`, length 3 gives `3` and the first
/// character, longer names give their first two and next two characters.
pub open spec fn spec_prefix_dirs(s: Seq<char>) -> Seq<Seq<char>> {
    if s.len() <= 1 {
        seq![seq!['1']]
    } else if s.len() == 2 {
        seq![seq!['2']]
    } else if s.len() == 3 {
        seq![seq!['3'], s.subrange(0, 1)]
    } else {
        seq![s.subrange(0, 2), s.subrange(2, 4)]
    }
}

/// Every character a crate name may hold is ASCII.
pub proof fn lemma_valid_name_is_ascii(s: Seq<char>)
    requires
        forall|i: int| 0 <= i < s.len() ==> valid_name_char(#[trigger] s[i]),
    ensures
        vstd::utf8::is_ascii_chars(s),
{
    assert forall|i: int| 0 <= i < s.len() implies '\0' <= #[trigger] s[i] <= '\u{7f}' by {
        assert(valid_name_char(s[i]));
    }
}

proof fn lemma_first_bad_char_at(s: Seq<char>, i: int)
    requires
        0 <= i < s.len(),
        !valid_name_char(s[i]),
        forall|j: int| 0 <= j < i ==> valid_name_char(#[trigger] s[j]),
    ensures
        first_bad_char(s) == s[i],
    decreases i,
{
    if i == 0 {
    } else {
        assert(valid_name_char(s[0]));
        assert forall|j: int| 0 <= j < i - 1 implies valid_name_char(#[trigger] s.skip(1)[j]) by {
            assert(s.skip(1)[j] == s[j + 1]);
        }
        assert(s.skip(1)[i - 1] == s[i]);
        lemma_first_bad_char_at(s.skip(1), i - 1);
    }
}

impl CrateName {
    /// Appends the shard directories for this name onto a path held as
    /// segments, exactly as `spec_prefix_dirs` states.
    pub fn append_prefix_directories(&self, path: &mut Vec<String>)
        requires
            self.wf(),
        ensures
            final(path).deep_view() == old(path).deep_view() + spec_prefix_dirs(self@),
    {
        proof {
            lemma_valid_name_is_ascii(self@);
            reveal_strlit("1");
            reveal_strlit("2");
            reveal_strlit("3");
        }
        let n = self.len();
        if n == 1 {
            path.push(String::from_str("1"));
        } else if n == 2 {
            path.push(String::from_str("2"));
        } else if n == 3 {
            let a = self.text.as_str().substring_ascii(0, 1);
            path.push(String::from_str("3"));
            path.push(a.to_owned());
        } else {
            let ab = self.text.as_str().substring_ascii(0, 2);
            let cd = self.text.as_str().substring_ascii(2, 4);
            path.push(ab.to_owned());
            path.push(cd.to_owned());
        }
        proof {
            assert(path.deep_view() =~~= old(path).deep_view() + spec_prefix_dirs(self@));
        }
    }
}

} // verus!
