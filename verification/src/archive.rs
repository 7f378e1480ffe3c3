//! Package-archive inspection: finding the manifest inside a
//! gzip-compressed tar archive.
//!
//! The decompressor and the tar reader are outside primitives; the
//! archive's layout rule is the library's own and is verified: the
//! first entry's top path component fixes the package's root
//! directory, every entry must be nested under it, and the manifest is
//! the entry `Cargo.toml` directly under that root.

use vstd::prelude::*;
use std::io::Read;

verus! {

/// The entries of the archive, in order: each entry's path and bytes.
/// `None` when the archive does not decompress or decode.  A function
/// of the bytes alone.
pub uninterp spec fn entries_of(data: Seq<u8>) -> Option<Seq<(Seq<char>, Seq<u8>)>>;

/// Relies on flate2::read::GzDecoder and tar::Archive::entries:
/// decoding the archive is a function of its bytes alone; entries
/// come in archive order.
#[verifier::external_body]
fn decode_archive(data: &[u8]) -> (r: Option<Vec<(String, Vec<u8>)>>)
    ensures
        match r {
            Some(es) => entries_of(data@) == Some(es.deep_view()),
            None => entries_of(data@) is None,
        },
{
    let mut out = Vec::new();
    for entry in tar::Archive::new(flate2::read::GzDecoder::new(data)).entries().ok()? {
        let mut entry = entry.ok()?;
        let path = entry.path().ok()?.to_string_lossy().into_owned();
        let mut bytes = Vec::new();
        entry.read_to_end(&mut bytes).ok()?;
        out.push((path, bytes));
    }
    Some(out)
}

/// The archive could not be read: a decompression or stream failure,
/// or a layout that breaks the root-directory rule.
#[derive(Debug, PartialEq, Eq, Structural, Clone, Copy)]
pub enum ExtractRootCargoTomlError {
    /// The bytes do not decompress or decode as a tar archive.
    Stream,
    /// The entries are not all nested under one root directory.
    Malformed,
}

/// The position of the first `/` in `t` (the length if none).
pub open spec fn slash_pos(t: Seq<char>) -> nat
    decreases t.len(),
{
    if t.len() == 0 {
        0
    } else if t[0] == '/' {
        0
    } else {
        1 + slash_pos(t.skip(1))
    }
}

/// A path piece that counts as a component: non-empty and not `.`.
pub open spec fn keep_seg(s: Seq<char>) -> bool {
    s.len() > 0 && s != "."@
}

/// The components of a path: pieces between `/`, empty pieces and `.`
/// dropped.
pub open spec fn seg_split(t: Seq<char>) -> Seq<Seq<char>>
    decreases t.len(),
{
    if t.len() == 0 {
        Seq::empty()
    } else {
        let k = slash_pos(t) as int;
        if k >= t.len() {
            if keep_seg(t) {
                seq![t]
            } else {
                Seq::empty()
            }
        } else {
            (if keep_seg(t.take(k)) {
                seq![t.take(k)]
            } else {
                Seq::<Seq<char>>::empty()
            }) + seg_split(t.skip(k + 1))
        }
    }
}

/// Walks the entries from `i` on, under a fixed root directory:
/// `Err` when an entry escapes the root, the manifest's bytes when an
/// entry is `Cargo.toml` directly under the root, `Ok(None)` when the
/// entries run out.
pub open spec fn sp_extract_from(
    entries: Seq<(Seq<char>, Seq<u8>)>,
    i: int,
    dirname: Seq<char>,
) -> Result<Option<Seq<u8>>, ()>
    decreases entries.len() - i,
{
    if i < 0 || i >= entries.len() {
        Ok(None)
    } else {
        let path = entries[i].0;
        let segs = seg_split(path);
        if path.len() > 0 && path[0] == '/' {
            Err(())
        } else if !(segs.len() > 0 && segs[0] == dirname) {
            Err(())
        } else if segs == seq![dirname, "Cargo.toml"@] {
            Ok(Some(entries[i].1))
        } else {
            sp_extract_from(entries, i + 1, dirname)
        }
    }
}

/// What inspecting an archive's entries yields: the manifest bytes,
/// nothing when there is no manifest, `Err` when the layout is
/// malformed.
pub open spec fn sp_extract(entries: Seq<(Seq<char>, Seq<u8>)>) -> Result<Option<Seq<u8>>, ()> {
    if entries.len() == 0 {
        Ok(None)
    } else {
        let first = entries[0].0;
        let segs0 = seg_split(first);
        if first.len() > 0 && first[0] == '/' {
            Err(())
        } else if segs0.len() == 0 || segs0[0] == ".."@ {
            Err(())
        } else {
            sp_extract_from(entries, 0, segs0[0])
        }
    }
}

/// The first `/` of `u` stands at `p`.
proof fn lemma_slash_pos(u: Seq<char>, p: int)
    requires
        0 <= p <= u.len(),
        forall|x: int| 0 <= x < p ==> (#[trigger] u[x]) != '/',
        p < u.len() ==> u[p] == '/',
    ensures
        slash_pos(u) == p,
    decreases p,
{
    if u.len() == 0 {
    } else if p == 0 {
    } else {
        assert forall|x: int| 0 <= x < p - 1 implies (#[trigger] u.skip(1)[x]) != '/' by {
            assert(u.skip(1)[x] == u[x + 1]);
        }
        assert(p - 1 < u.skip(1).len() ==> u.skip(1)[p - 1] == '/') by {
            if p - 1 < u.skip(1).len() {
                assert(u.skip(1)[p - 1] == u[p]);
            }
        }
        lemma_slash_pos(u.skip(1), p - 1);
    }
}

/// Splits a path into its components, exactly `seg_split`.
pub fn split_segments(path: &str) -> (r: Vec<String>)
    ensures
        r.deep_view() == seg_split(path@),
{
    let n = path.unicode_len();
    let mut out: Vec<String> = Vec::new();
    let mut i: usize = 0;
    proof {
        assert(path@.skip(0) =~= path@);
        assert(out.deep_view() =~= Seq::<Seq<char>>::empty());
        assert(Seq::<Seq<char>>::empty() + seg_split(path@) =~= seg_split(path@));
    }
    while i < n
        invariant
            n == path@.len(),
            0 <= i <= n,
            seg_split(path@) == out.deep_view() + seg_split(path@.skip(i as int)),
        decreases n - i,
    {
        let ghost outv0 = out.deep_view();
        let mut j: usize = i;
        loop
            invariant
                n == path@.len(),
                i <= j <= n,
                forall|x: int| i <= x < j ==> (#[trigger] path@[x]) != '/',
            ensures
                i <= j <= n,
                forall|x: int| i <= x < j ==> (#[trigger] path@[x]) != '/',
                j < n ==> path@[j as int] == '/',
            decreases n - j,
        {
            if j >= n {
                break;
            }
            if path.get_char(j) == '/' {
                break;
            }
            j += 1;
        }
        let piece = path.substring_char(i, j);
        let keep = j > i && !(j - i == 1 && piece.get_char(0) == '.');
        if keep {
            out.push(piece.to_owned());
        }
        proof {
            let t = path@;
            let u = t.skip(i as int);
            assert forall|x: int| 0 <= x < j - i implies (#[trigger] u[x]) != '/' by {
                assert(u[x] == t[x + i]);
            }
            assert(j - i < u.len() ==> u[j - i] == '/') by {
                if j < n {
                    assert(u[j - i] == t[j as int]);
                }
            }
            lemma_slash_pos(u, j - i);
            let pc = t.subrange(i as int, j as int);
            assert(keep == keep_seg(pc)) by {
                reveal_strlit(".");
                if pc.len() == 1 && pc[0] == '.' {
                    assert(pc =~= "."@);
                }
                if pc == "."@ {
                    assert(pc.len() == 1 && pc[0] == '.');
                }
            }
            if j < n {
                assert(u.take(j - i) =~= pc);
                assert(u.skip(j - i + 1) =~= t.skip(j + 1));
                if keep {
                    assert(out.deep_view() =~= outv0 + seq![pc]);
                    assert(outv0 + seg_split(u) =~= out.deep_view() + seg_split(t.skip(j + 1)));
                } else {
                    assert(seg_split(u) == Seq::<Seq<char>>::empty() + seg_split(t.skip(j + 1)));
                    assert(outv0 + seg_split(u) =~= out.deep_view() + seg_split(t.skip(j + 1)));
                }
            } else {
                assert(u =~= pc);
                assert(t.skip(n as int).len() == 0);
                assert(seg_split(t.skip(n as int)) =~= Seq::<Seq<char>>::empty());
                if keep {
                    assert(seg_split(u) == seq![u]);
                    assert(out.deep_view() =~= outv0 + seq![pc]);
                } else {
                    assert(seg_split(u) =~= Seq::<Seq<char>>::empty());
                }
                assert(outv0 + seg_split(u) =~= out.deep_view() + seg_split(t.skip(n as int)));
            }
        }
        if j < n {
            i = j + 1;
        } else {
            i = n;
        }
    }
    proof {
        assert(path@.skip(i as int).len() == 0);
        assert(seg_split(path@.skip(i as int)) =~= Seq::<Seq<char>>::empty());
        assert(out.deep_view() =~= out.deep_view() + seg_split(path@.skip(i as int)));
    }
    out
}

/// Extracts the manifest from a package archive: decodes the bytes,
/// fixes the root directory from the first entry, demands every entry
/// nested under it, and returns the bytes of `Cargo.toml` directly
/// under the root — or `Ok(None)` when the entries hold no manifest.
pub fn extract_root_cargo_toml(data: &[u8]) -> (r: Result<
    Option<Vec<u8>>,
    ExtractRootCargoTomlError,
>)
    ensures
        match r {
            Ok(Some(b)) => entries_of(data@) matches Some(es) && sp_extract(es) == Ok::<
                Option<Seq<u8>>,
                (),
            >(Some(b@)),
            Ok(None) => entries_of(data@) matches Some(es) && sp_extract(es) == Ok::<
                Option<Seq<u8>>,
                (),
            >(None),
            Err(ExtractRootCargoTomlError::Stream) => entries_of(data@) is None,
            Err(ExtractRootCargoTomlError::Malformed) => entries_of(data@) matches Some(es)
                && sp_extract(es) is Err,
        },
{
    let entries = match decode_archive(data) {
        Some(es) => es,
        None => {
            return Err(ExtractRootCargoTomlError::Stream);
        },
    };
    let ghost es = entries.deep_view();
    if entries.len() == 0 {
        return Ok(None);
    }
    let first_path: &String = &entries[0].0;
    proof {
        assert(es[0] == (entries@[0].0@, entries@[0].1@));
    }
    if first_path.as_str().unicode_len() > 0 && first_path.as_str().get_char(0) == '/' {
        return Err(ExtractRootCargoTomlError::Malformed);
    }
    let segs0 = split_segments(first_path.as_str());
    if segs0.len() == 0 {
        return Err(ExtractRootCargoTomlError::Malformed);
    }
    proof {
        assert(segs0.deep_view()[0] == segs0@[0]@);
        reveal_strlit("..");
    }
    if crate::strs::str_eq(segs0[0].as_str(), "..") {
        return Err(ExtractRootCargoTomlError::Malformed);
    }
    let dirname: &String = &segs0[0];
    let n = entries.len();
    let mut i: usize = 0;
    while i < n
        invariant
            n == entries@.len(),
            es == entries.deep_view(),
            entries_of(data@) == Some(es),
            0 <= i <= n,
            es.len() > 0,
            dirname@ == seg_split(es[0].0)[0],
            sp_extract(es) == sp_extract_from(es, i as int, dirname@),
            !(es[0].0.len() > 0 && es[0].0[0] == '/'),
            seg_split(es[0].0).len() > 0,
            !(seg_split(es[0].0)[0] == ".."@),
        decreases n - i,
    {
        let path: &String = &entries[i].0;
        proof {
            assert(es[i as int] == (entries@[i as int].0@, entries@[i as int].1@));
        }
        if path.as_str().unicode_len() > 0 && path.as_str().get_char(0) == '/' {
            return Err(ExtractRootCargoTomlError::Malformed);
        }
        let segs = split_segments(path.as_str());
        if segs.len() == 0 {
            return Err(ExtractRootCargoTomlError::Malformed);
        }
        proof {
            assert(segs.deep_view()[0] == segs@[0]@);
        }
        if !crate::strs::str_eq(segs[0].as_str(), dirname.as_str()) {
            return Err(ExtractRootCargoTomlError::Malformed);
        }
        let is_manifest = segs.len() == 2 && crate::strs::str_eq(segs[1].as_str(), "Cargo.toml");
        if is_manifest {
            proof {
                assert(segs.deep_view()[1] == segs@[1]@);
                assert(seg_split(es[i as int].0) =~= seq![dirname@, "Cargo.toml"@]);
            }
            let bytes = entries[i].1.clone();
            proof {
                assert(bytes@ == es[i as int].1);
            }
            return Ok(Some(bytes));
        }
        proof {
            assert(!(seg_split(es[i as int].0) == seq![dirname@, "Cargo.toml"@])) by {
                let sv = seg_split(es[i as int].0);
                if sv == seq![dirname@, "Cargo.toml"@] {
                    assert(sv.len() == 2);
                    assert(sv[1] == "Cargo.toml"@);
                    assert(segs.deep_view()[1] == segs@[1]@);
                }
            }
        }
        i += 1;
    }
    Ok(None)
}

} // verus!
