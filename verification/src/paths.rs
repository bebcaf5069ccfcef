//! Relative-path handling: sanitization of archive entry names, the file-name
//! and suffix tests that drive the merge filter, and the naming conventions
//! for diff blobs and downloaded archives.

use vstd::prelude::*;
use crate::bytes::{
    COLON, DOT, SLASH, BACKSLASH, bytes_eq, hdiff_suffix, spec_delete_list_name,
    spec_hdiff_suffix, spec_patch_list_name,
};

verus! {

/// A path separator as archives store them: forward or backward slash.
pub open spec fn spec_is_sep(b: u8) -> bool {
    b == SLASH || b == BACKSLASH
}

fn is_sep(b: u8) -> (r: bool)
    ensures
        r == spec_is_sep(b),
{
    b == SLASH || b == BACKSLASH
}

/// The position of the first separator at or after `i`, or the length.
pub open spec fn spec_find_sep(s: Seq<u8>, i: int) -> int
    decreases s.len() - i,
{
    if i >= s.len() {
        s.len() as int
    } else if spec_is_sep(s[i]) {
        i
    } else {
        spec_find_sep(s, i + 1)
    }
}

proof fn lemma_find_sep_bounds(s: Seq<u8>, i: int)
    requires
        0 <= i <= s.len(),
    ensures
        i <= spec_find_sep(s, i) <= s.len(),
    decreases s.len() - i,
{
    if i < s.len() && !spec_is_sep(s[i]) {
        lemma_find_sep_bounds(s, i + 1);
    }
}

fn find_sep(s: &[u8], i: usize) -> (r: usize)
    requires
        i <= s@.len(),
    ensures
        r == spec_find_sep(s@, i as int),
        i <= r <= s@.len(),
{
    let n = s.len();
    let mut j = i;
    while j < n && !is_sep(s[j])
        invariant
            i <= j <= n,
            n == s@.len(),
            spec_find_sep(s@, i as int) == spec_find_sep(s@, j as int),
        decreases n - j,
    {
        j = j + 1;
    }
    j
}

/// The components of a stored entry name, split at separators.
pub open spec fn spec_components_from(s: Seq<u8>, i: int) -> Seq<Seq<u8>>
    decreases s.len() + 1 - i,
    via spec_components_decreases
{
    if i < 0 || i >= s.len() {
        Seq::empty()
    } else {
        let j = spec_find_sep(s, i);
        seq![s.subrange(i, j)] + spec_components_from(s, j + 1)
    }
}

#[via_fn]
proof fn spec_components_decreases(s: Seq<u8>, i: int) {
    if 0 <= i < s.len() {
        lemma_find_sep_bounds(s, i);
    }
}

/// The components of a stored entry name.
pub open spec fn spec_components(s: Seq<u8>) -> Seq<Seq<u8>> {
    spec_components_from(s, 0)
}

/// A component that makes the whole entry name unacceptable: a parent-
/// directory reference, a drive-letter colon, or an embedded NUL.
pub open spec fn spec_component_rejected(c: Seq<u8>) -> bool {
    c == seq![DOT, DOT] || c.contains(COLON) || c.contains(0u8)
}

/// A component that is silently dropped: empty (doubled or trailing
/// separators, a leading root) or the current-directory reference.
pub open spec fn spec_component_dropped(c: Seq<u8>) -> bool {
    c.len() == 0 || c == seq![DOT]
}

fn component_rejected(c: &[u8]) -> (r: bool)
    ensures
        r == spec_component_rejected(c@),
{
    if c.len() == 2 && c[0] == DOT && c[1] == DOT {
        proof {
            assert(c@ =~= seq![DOT, DOT]);
        }
        return true;
    }
    let mut i: usize = 0;
    while i < c.len()
        invariant
            i <= c@.len(),
            forall|j: int| 0 <= j < i ==> c@[j] != COLON && c@[j] != 0u8,
        decreases c@.len() - i,
    {
        if c[i] == COLON || c[i] == 0 {
            return true;
        }
        i = i + 1;
    }
    proof {
        if c@ == seq![DOT, DOT] {
            assert(c@.len() == 2 && c@[0] == DOT && c@[1] == DOT);
        }
        assert(!c@.contains(COLON));
        assert(!c@.contains(0u8));
    }
    false
}

fn component_dropped(c: &[u8]) -> (r: bool)
    ensures
        r == spec_component_dropped(c@),
{
    if c.len() == 0 {
        true
    } else if c.len() == 1 && c[0] == DOT {
        proof {
            assert(c@ =~= seq![DOT]);
        }
        true
    } else {
        proof {
            if c@ == seq![DOT] {
                assert(c@.len() == 1 && c@[0] == DOT);
            }
        }
        false
    }
}

/// The kept components joined with forward slashes.
pub open spec fn spec_join(cs: Seq<Seq<u8>>) -> Seq<u8>
    decreases cs.len(),
{
    if cs.len() == 0 {
        Seq::empty()
    } else if cs.len() == 1 {
        cs[0]
    } else {
        spec_join(cs.drop_last()) + seq![SLASH] + cs.last()
    }
}

/// What sanitization makes of a stored entry name: splits it at separators,
/// drops empty and current-directory components, rejects the whole name on a
/// traversal or drive component, and joins what is left with forward slashes.
/// A name with nothing left is rejected too.
pub open spec fn spec_sanitize(raw: Seq<u8>) -> Option<Seq<u8>> {
    let cs = spec_components(raw);
    if exists|i: int| 0 <= i < cs.len() && spec_component_rejected(cs[i]) {
        None
    } else {
        let kept = cs.filter(|c: Seq<u8>| !spec_component_dropped(c));
        if kept.len() == 0 {
            None
        } else {
            Some(spec_join(kept))
        }
    }
}

/// Sanitizes a stored entry name before it may be joined under the output
/// directory; `None` rejects the entry.
pub fn sanitize_entry_path(raw: &[u8]) -> (r: Option<Vec<u8>>)
    ensures
        match r {
            Some(p) => spec_sanitize(raw@) == Some(p@),
            None => spec_sanitize(raw@) is None,
        },
{
    let n = raw.len();
    let ghost cs = spec_components(raw@);
    let mut acc: Vec<u8> = Vec::new();
    let mut has_kept = false;
    let mut i: usize = 0;
    let ghost mut ci: int = 0;
    while i < n
        invariant
            i <= n,
            n == raw@.len(),
            0 <= ci <= cs.len(),
            cs == spec_components(raw@),
            cs =~= cs.take(ci) + spec_components_from(raw@, i as int),
            forall|x: int| 0 <= x < ci ==> !spec_component_rejected(cs[x]),
            has_kept == (cs.take(ci).filter(|c: Seq<u8>| !spec_component_dropped(c)).len() > 0),
            acc@ == spec_join(cs.take(ci).filter(|c: Seq<u8>| !spec_component_dropped(c))),
        decreases n + 1 - i,
    {
        let j = find_sep(raw, i);
        let comp = vstd::slice::slice_subrange(raw, i, j);
        proof {
            assert(spec_components_from(raw@, i as int) == seq![raw@.subrange(i as int, j as int)]
                + spec_components_from(raw@, j + 1));
            assert(cs[ci] == comp@);
            assert(cs.take(ci + 1) =~= cs.take(ci) + seq![comp@]);
        }
        if component_rejected(comp) {
            proof {
                assert(spec_component_rejected(cs[ci]));
            }
            return None;
        }
        let ghost pre_kept = cs.take(ci).filter(|c: Seq<u8>| !spec_component_dropped(c));
        proof {
            Seq::filter_distributes_over_add(
                cs.take(ci),
                seq![comp@],
                |c: Seq<u8>| !spec_component_dropped(c),
            );
            reveal_with_fuel(Seq::<_>::filter, 3);
            assert(seq![comp@].drop_last() =~= Seq::<Seq<u8>>::empty());
        }
        if !component_dropped(comp) {
            proof {
                assert(seq![comp@].filter(|c: Seq<u8>| !spec_component_dropped(c))
                    =~= seq![comp@]);
                assert(cs.take(ci + 1).filter(|c: Seq<u8>| !spec_component_dropped(c))
                    =~= pre_kept.push(comp@));
            }
            if has_kept {
                acc.push(SLASH);
            }
            crate::append_bytes(&mut acc, comp);
            has_kept = true;
            proof {
                let kept2 = cs.take(ci + 1).filter(
                    |c: Seq<u8>| !spec_component_dropped(c),
                );
                assert(kept2.drop_last() =~= pre_kept);
                assert(kept2.last() == comp@);
                if pre_kept.len() == 0 {
                    assert(spec_join(kept2) == comp@);
                    assert(acc@ =~= comp@);
                } else {
                    assert(spec_join(kept2) == spec_join(pre_kept) + seq![SLASH] + comp@);
                    assert(acc@ =~= spec_join(pre_kept) + seq![SLASH] + comp@);
                }
            }
        } else {
            proof {
                assert(seq![comp@].filter(|c: Seq<u8>| !spec_component_dropped(c))
                    =~= Seq::<Seq<u8>>::empty());
                assert(cs.take(ci + 1).filter(|c: Seq<u8>| !spec_component_dropped(c))
                    =~= pre_kept);
            }
        }
        proof {
            ci = ci + 1;
        }
        i = if j < n {
            j + 1
        } else {
            n
        };
    }
    proof {
        assert(spec_components_from(raw@, i as int) =~= Seq::<Seq<u8>>::empty());
        assert(cs.take(ci) + Seq::<Seq<u8>>::empty() =~= cs.take(ci));
        assert(cs.take(ci) =~= cs);
        assert(forall|x: int| 0 <= x < cs.len() ==> !spec_component_rejected(cs[x]));
    }
    if has_kept {
        Some(acc)
    } else {
        None
    }
}

/// The position just after the last forward slash strictly before `i`, or 0.
pub open spec fn spec_after_last_slash(s: Seq<u8>, i: int) -> int
    decreases i,
{
    if i <= 0 {
        0
    } else if s[i - 1] == SLASH {
        i
    } else {
        spec_after_last_slash(s, i - 1)
    }
}

/// The file name of a slash-separated path: the bytes after the last slash.
pub open spec fn spec_file_name(s: Seq<u8>) -> Seq<u8> {
    s.subrange(spec_after_last_slash(s, s.len() as int), s.len() as int)
}

proof fn lemma_after_last_slash_bounds(s: Seq<u8>, i: int)
    requires
        0 <= i <= s.len(),
    ensures
        0 <= spec_after_last_slash(s, i) <= i,
    decreases i,
{
    if i > 0 && s[i - 1] != SLASH {
        lemma_after_last_slash_bounds(s, i - 1);
    }
}

/// The file name of a path: what follows its last forward slash.  The final
/// segment of a URL, which names the downloaded archive, is the same notion.
pub fn file_name(s: &[u8]) -> (r: Vec<u8>)
    ensures
        r@ == spec_file_name(s@),
{
    let n = s.len();
    let mut j = n;
    while j > 0 && s[j - 1] != SLASH
        invariant
            j <= n == s@.len(),
            spec_after_last_slash(s@, n as int) == spec_after_last_slash(s@, j as int),
        decreases j,
    {
        j = j - 1;
    }
    proof {
        lemma_after_last_slash_bounds(s@, j as int);
    }
    vstd::slice::slice_to_vec(vstd::slice::slice_subrange(s, j, n))
}

/// Whether `s` ends with `suffix`.
pub open spec fn spec_ends_with(s: Seq<u8>, suffix: Seq<u8>) -> bool {
    s.len() >= suffix.len() && s.skip(s.len() - suffix.len()) == suffix
}

/// Tests a byte string for a suffix.
pub fn ends_with(s: &[u8], suffix: &[u8]) -> (r: bool)
    ensures
        r == spec_ends_with(s@, suffix@),
{
    let n = s.len();
    let m = suffix.len();
    if n < m {
        return false;
    }
    let tail = vstd::slice::slice_subrange(s, n - m, n);
    let r = bytes_eq(tail, suffix);
    proof {
        assert(s@.skip(n - m) =~= s@.subrange(n - m, n as int));
    }
    r
}

/// Whether the merge stage must skip this path: a control-file name, or the
/// diff-blob suffix.
pub open spec fn spec_is_merge_skipped(p: Seq<u8>) -> bool {
    spec_file_name(p) == spec_patch_list_name() || spec_file_name(p) == spec_delete_list_name()
        || spec_ends_with(p, spec_hdiff_suffix())
}

/// The merge filter: control files and diff blobs are never merged verbatim.
pub fn is_merge_skipped(p: &[u8]) -> (r: bool)
    ensures
        r == spec_is_merge_skipped(p@),
{
    let name = file_name(p);
    let patch_list = crate::bytes::patch_list_name();
    let delete_list = crate::bytes::delete_list_name();
    let suffix = hdiff_suffix();
    bytes_eq(name.as_slice(), patch_list.as_slice()) || bytes_eq(
        name.as_slice(),
        delete_list.as_slice(),
    ) || ends_with(p, suffix.as_slice())
}

/// The name of the diff blob beside a patch target: the target path with the
/// `.hdiff` suffix appended.
pub fn hdiff_name(name: &[u8]) -> (r: Vec<u8>)
    ensures
        r@ == name@ + spec_hdiff_suffix(),
{
    let mut v = vstd::slice::slice_to_vec(name);
    let suffix = hdiff_suffix();
    crate::append_bytes(&mut v, suffix.as_slice());
    v
}

} // verus!
